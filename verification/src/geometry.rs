//! Following the tool through a program: where each command moves it.
//!
//! A position is a list of `(axis, value)` pairs naming each axis at most
//! once, in the order in which the axes became known.
use vstd::prelude::*;
use crate::gcode::{AxisValues, CommandModel, GCodeCommand, GCodeLine, LineModel, Orientation, Plane};
use crate::number::Decimal;

verus! {

#[derive(Debug, Clone, Copy, PartialEq, Eq, Structural)]
pub enum GCodePositionError {
    BadAxis(usize),
    NoArcMode,
    InvalidArc,
}

/// The value of the first pair naming `axis`.
pub open spec fn lookup(p: Seq<(usize, Decimal)>, axis: usize) -> Option<Decimal>
    decreases p.len(),
{
    if p.len() == 0 {
        None
    } else if p[0].0 == axis {
        Some(p[0].1)
    } else {
        lookup(p.drop_first(), axis)
    }
}

/// Where the first pair naming `axis` stands.
pub open spec fn index_of(p: Seq<(usize, Decimal)>, axis: usize) -> Option<nat>
    decreases p.len(),
{
    if p.len() == 0 {
        None
    } else if p[0].0 == axis {
        Some(0)
    } else {
        match index_of(p.drop_first(), axis) {
            Some(i) => Some(i + 1),
            None => None,
        }
    }
}

proof fn lemma_index_of(p: Seq<(usize, Decimal)>, axis: usize)
    ensures
        match index_of(p, axis) {
            Some(i) => i < p.len() && p[i as int].0 == axis && lookup(p, axis) == Some(
                p[i as int].1,
            ) && forall|j: int| 0 <= j < i ==> #[trigger] p[j].0 != axis,
            None => lookup(p, axis) is None && forall|j: int|
                0 <= j < p.len() ==> #[trigger] p[j].0 != axis,
        },
    decreases p.len(),
{
    if p.len() > 0 && p[0].0 != axis {
        let t = p.drop_first();
        lemma_index_of(t, axis);
        match index_of(t, axis) {
            Some(i) => {
                assert(p[i + 1 as int] == t[i as int]);
                assert forall|j: int| 0 <= j < i + 1 implies #[trigger] p[j].0 != axis by {
                    if j > 0 {
                        assert(p[j] == t[j - 1]);
                    }
                }
            },
            None => {
                assert forall|j: int| 0 <= j < p.len() implies #[trigger] p[j].0 != axis by {
                    if j > 0 {
                        assert(p[j] == t[j - 1]);
                    }
                }
            },
        }
    }
}

/// `p` with `axis` set to `value`: replaced where it is, appended otherwise.
pub open spec fn set_axis(p: Seq<(usize, Decimal)>, axis: usize, value: Decimal) -> Seq<
    (usize, Decimal),
> {
    match index_of(p, axis) {
        Some(i) => p.update(i as int, (axis, value)),
        None => p.push((axis, value)),
    }
}

/// The position after the values of a move are set in turn, and the first
/// axis that was not known before, at which setting stopped.
pub open spec fn updated(p: Seq<(usize, Decimal)>, values: Seq<(usize, Decimal)>) -> (
    Seq<(usize, Decimal)>,
    Option<usize>,
)
    decreases values.len(),
{
    if values.len() == 0 {
        (p, None)
    } else {
        let (axis, value) = values[0];
        let p1 = set_axis(p, axis, value);
        if lookup(p, axis) is None {
            (p1, Some(axis))
        } else {
            updated(p1, values.drop_first())
        }
    }
}

/// The value given to `index` by the first pair naming it.
pub fn get_latter_value(positions: &Vec<(usize, Decimal)>, index: usize) -> (r: Option<Decimal>)
    ensures
        r == lookup(positions@, index),
{
    let mut i: usize = 0;
    assert(positions@.skip(0) =~= positions@);
    while i < positions.len()
        invariant
            i <= positions.len(),
            lookup(positions@.skip(i as int), index) == lookup(positions@, index),
        decreases positions.len() - i,
    {
        let (axis_index, coord) = positions[i];
        assert(positions@.skip(i as int).drop_first() =~= positions@.skip(i as int + 1));
        if axis_index == index {
            return Some(coord);
        }
        i = i + 1;
    }
    None
}

fn find_axis(positions: &Vec<(usize, Decimal)>, index: usize) -> (r: Option<usize>)
    ensures
        match r {
            Some(i) => index_of(positions@, index) == Some(i as nat),
            None => index_of(positions@, index) is None,
        },
{
    proof {
        lemma_index_of(positions@, index);
    }
    let mut i: usize = 0;
    while i < positions.len()
        invariant
            i <= positions.len(),
            forall|j: int| 0 <= j < i ==> #[trigger] positions@[j].0 != index,
            match index_of(positions@, index) {
                Some(k) => k < positions@.len() && positions@[k as int].0 == index && forall|j: int|
                    0 <= j < k ==> #[trigger] positions@[j].0 != index,
                None => forall|j: int| 0 <= j < positions@.len() ==> #[trigger] positions@[j].0 != index,
            },
        decreases positions.len() - i,
    {
        if positions[i].0 == index {
            return Some(i);
        }
        i = i + 1;
    }
    None
}

/// The target position of a command that moves the tool.
pub fn get_position_from_command(command: &GCodeCommand) -> (r: Option<&AxisValues>)
    ensures
        match r {
            Some(v) => command@.position() == Some(v@),
            None => command@.position() is None,
        },
{
    match command {
        GCodeCommand::Move { position, .. } => Some(position),
        GCodeCommand::Probe { position, .. } => Some(position),
        GCodeCommand::ArcMove { position, .. } => Some(position),
        _ => None,
    }
}

/// The position as a list of axis values.
pub fn map_to_axis_values(map: &Vec<(usize, Decimal)>) -> (r: AxisValues)
    ensures
        r@ == map@,
{
    let mut values: Vec<(usize, Decimal)> = Vec::new();
    let mut i: usize = 0;
    while i < map.len()
        invariant
            i <= map.len(),
            values@ == map@.take(i as int),
        decreases map.len() - i,
    {
        values.push(map[i]);
        assert(values@ =~= map@.take(i as int + 1));
        i = i + 1;
    }
    assert(map@.take(i as int) =~= map@);
    AxisValues(values)
}

/// Sets the values of a move in turn. Setting an axis that was not known
/// before stops with `BadAxis` (the axis is set all the same).
pub fn update_position(last_position: &mut Vec<(usize, Decimal)>, axis_value: &AxisValues) -> (r:
    Result<(), GCodePositionError>)
    ensures
        final(last_position)@ == updated(old(last_position)@, axis_value@).0,
        match updated(old(last_position)@, axis_value@).1 {
            Some(axis) => r == Err::<(), GCodePositionError>(GCodePositionError::BadAxis(axis)),
            None => r is Ok,
        },
{
    let values = &axis_value.0;
    let mut j: usize = 0;
    assert(values@.skip(0) =~= values@);
    while j < values.len()
        invariant
            j <= values.len(),
            values@ == axis_value@,
            updated(last_position@, values@.skip(j as int)) == updated(
                old(last_position)@,
                axis_value@,
            ),
        decreases values.len() - j,
    {
        let (coord, value) = values[j];
        let ghost before = last_position@;
        let ghost rest = values@.skip(j as int);
        assert(rest[0] == (coord, value));
        assert(rest.drop_first() =~= values@.skip(j as int + 1));
        proof {
            lemma_index_of(before, coord);
        }
        match find_axis(last_position, coord) {
            Some(i) => {
                last_position.set(i, (coord, value));
                assert(last_position@ == set_axis(before, coord, value));
            },
            None => {
                last_position.push((coord, value));
                assert(last_position@ == set_axis(before, coord, value));
                return Err(GCodePositionError::BadAxis(coord));
            },
        }
        j = j + 1;
    }
    assert(values@.skip(j as int) =~= Seq::<(usize, Decimal)>::empty());
    Ok(())
}

/// The indices `(i, j)` such that the arc is counterclockwise in the
/// projection `v -> (v_i, v_j)`.
pub fn arc_indices(plane: Plane, orientation: Orientation) -> (r: (usize, usize))
    ensures
        ({
            let (i, j) = match plane {
                Plane::XY => (0usize, 1usize),
                Plane::ZX => (2usize, 0usize),
                Plane::YZ => (1usize, 2usize),
            };
            r == match orientation {
                Orientation::Clockwise => (j, i),
                Orientation::Counterclockwise => (i, j),
            }
        }),
{
    let (i, j) = match plane {
        Plane::XY => (0, 1),
        Plane::ZX => (2, 0),
        Plane::YZ => (1, 2),
    };
    match orientation {
        Orientation::Clockwise => (j, i),
        Orientation::Counterclockwise => (i, j),
    }
}

/// `p` with the pairs of `values` whose axes it does not know yet appended.
pub open spec fn add_absent(p: Seq<(usize, Decimal)>, values: Seq<(usize, Decimal)>) -> Seq<
    (usize, Decimal),
>
    decreases values.len(),
{
    if values.len() == 0 {
        p
    } else {
        let (axis, value) = values[0];
        let p1 = if lookup(p, axis) is None {
            p.push((axis, value))
        } else {
            p
        };
        add_absent(p1, values.drop_first())
    }
}

/// The target of a line's command, when it moves the tool.
pub open spec fn line_target(l: LineModel) -> Option<Seq<(usize, Decimal)>> {
    match l.command {
        Some(c) => c.position(),
        None => None,
    }
}

/// The first value the program gives each axis, axes in order of appearance.
pub open spec fn first_position(lines: Seq<LineModel>) -> Seq<(usize, Decimal)>
    decreases lines.len(),
{
    if lines.len() == 0 {
        Seq::empty()
    } else {
        let p = first_position(lines.drop_last());
        match line_target(lines.last()) {
            Some(values) => add_absent(p, values),
            None => p,
        }
    }
}

pub open spec fn lines_view(program: Seq<GCodeLine>) -> Seq<LineModel> {
    program.map_values(|l: GCodeLine| l@)
}

/// The first value the program gives each axis.
pub fn get_first_position(program: &Vec<GCodeLine>) -> (r: AxisValues)
    ensures
        r@ == first_position(lines_view(program@)),
{
    let mut values: Vec<(usize, Decimal)> = Vec::new();
    let mut i: usize = 0;
    while i < program.len()
        invariant
            i <= program.len(),
            values@ == first_position(lines_view(program@).take(i as int)),
        decreases program.len() - i,
    {
        let ghost lines = lines_view(program@);
        assert(lines.take(i as int + 1).drop_last() =~= lines.take(i as int));
        assert(lines.take(i as int + 1).last() == program@[i as int]@);
        let gcode = &program[i];
        let position = match &gcode.command {
            Some(c) => get_position_from_command(c),
            None => None,
        };
        match position {
            Some(position) => {
                let ghost start = values@;
                let mut j: usize = 0;
                assert(position@.skip(0) =~= position@);
                while j < position.0.len()
                    invariant
                        j <= position.0.len(),
                        add_absent(values@, position@.skip(j as int)) == add_absent(
                            start,
                            position@,
                        ),
                    decreases position.0.len() - j,
                {
                    let (coord, value) = position.0[j];
                    assert(position@.skip(j as int)[0] == (coord, value));
                    assert(position@.skip(j as int).drop_first() =~= position@.skip(j as int + 1));
                    if get_latter_value(&values, coord).is_none() {
                        values.push((coord, value));
                    }
                    j = j + 1;
                }
                assert(position@.skip(j as int) =~= Seq::<(usize, Decimal)>::empty());
            },
            None => {},
        }
        i = i + 1;
    }
    assert(lines_view(program@).take(i as int) =~= lines_view(program@));
    AxisValues(values)
}

// ---------------------------------------------------------------------------
// Walking a program from its first position
// ---------------------------------------------------------------------------

/// The position after each moving line of the program is applied in turn,
/// or nothing when one of them names an axis not known yet.
pub open spec fn walk(p: Seq<(usize, Decimal)>, lines: Seq<LineModel>) -> Option<
    Seq<(usize, Decimal)>,
>
    decreases lines.len(),
{
    if lines.len() == 0 {
        Some(p)
    } else {
        match walk(p, lines.drop_last()) {
            Some(q) => match line_target(lines.last()) {
                Some(values) => {
                    let (q1, bad) = updated(q, values);
                    if bad is None {
                        Some(q1)
                    } else {
                        None
                    }
                },
                None => Some(q),
            },
            None => None,
        }
    }
}

pub open spec fn knows(p: Seq<(usize, Decimal)>, axis: usize) -> bool {
    lookup(p, axis) is Some
}

proof fn lemma_set_axis_knows(p: Seq<(usize, Decimal)>, axis: usize, value: Decimal, other: usize)
    ensures
        knows(set_axis(p, axis, value), other) == (knows(p, other) || other == axis),
{
    lemma_index_of(p, axis);
    lemma_index_of(p, other);
    let q = set_axis(p, axis, value);
    lemma_index_of(q, other);
    match index_of(p, other) {
        Some(k) => {
            assert(q[k as int].0 == other);
        },
        None => {
            if other != axis {
                assert forall|j: int| 0 <= j < q.len() implies #[trigger] q[j].0 != other by {
                    if j < p.len() {
                        assert(p[j].0 != other);
                    }
                }
            } else {
                assert(q[q.len() - 1].0 == other);
            }
        },
    }
}

proof fn lemma_add_absent_knows(p: Seq<(usize, Decimal)>, values: Seq<(usize, Decimal)>, other: usize)
    ensures
        knows(add_absent(p, values), other) == (knows(p, other) || exists|j: int|
            0 <= j < values.len() && #[trigger] values[j].0 == other),
    decreases values.len(),
{
    if values.len() > 0 {
        let (axis, value) = values[0];
        let p1 = if lookup(p, axis) is None {
            p.push((axis, value))
        } else {
            p
        };
        lemma_add_absent_knows(p1, values.drop_first(), other);
        if lookup(p, axis) is None {
            lemma_index_of(p, axis);
            lemma_index_of(p, other);
            lemma_index_of(p1, other);
            if knows(p, other) {
                let k = index_of(p, other).unwrap();
                assert(p1[k as int] == p[k as int]);
            } else if other != axis {
                assert forall|j: int| 0 <= j < p1.len() implies #[trigger] p1[j].0 != other by {
                    if j < p.len() {
                        assert(p1[j] == p[j]);
                    }
                }
            } else {
                assert(p1[p1.len() - 1].0 == other);
            }
        }
        if exists|j: int| 0 <= j < values.len() && #[trigger] values[j].0 == other {
            let j = choose|j: int| 0 <= j < values.len() && #[trigger] values[j].0 == other;
            if j > 0 {
                assert(values.drop_first()[j - 1].0 == other);
            }
        }
        if exists|j: int| 0 <= j < values.len() - 1 && #[trigger] values.drop_first()[j].0 == other {
            let j = choose|j: int|
                0 <= j < values.len() - 1 && #[trigger] values.drop_first()[j].0 == other;
            assert(values[j + 1].0 == other);
        }
    }
}

/// An update whose axes are all known reports nothing and keeps the known axes.
proof fn lemma_updated_known(p: Seq<(usize, Decimal)>, values: Seq<(usize, Decimal)>)
    requires
        forall|j: int| 0 <= j < values.len() ==> knows(p, #[trigger] values[j].0),
    ensures
        updated(p, values).1 is None,
        forall|a: usize| knows(p, a) <==> #[trigger] knows(updated(p, values).0, a),
    decreases values.len(),
{
    if values.len() > 0 {
        let (axis, value) = values[0];
        assert(knows(p, values[0].0));
        let p1 = set_axis(p, axis, value);
        assert forall|a: usize| knows(p, a) <==> #[trigger] knows(p1, a) by {
            lemma_set_axis_knows(p, axis, value, a);
        }
        assert forall|j: int| 0 <= j < values.drop_first().len() implies knows(
            p1,
            #[trigger] values.drop_first()[j].0,
        ) by {
            assert(values.drop_first()[j] == values[j + 1]);
        }
        lemma_updated_known(p1, values.drop_first());
    }
}

proof fn lemma_first_position_knows(lines: Seq<LineModel>, i: int, j: int)
    requires
        0 <= i < lines.len(),
        line_target(lines[i]) matches Some(values) && 0 <= j < values.len(),
    ensures
        knows(first_position(lines), line_target(lines[i]).unwrap()[j].0),
    decreases lines.len(),
{
    let axis = line_target(lines[i]).unwrap()[j].0;
    let prefix = lines.drop_last();
    if i < lines.len() - 1 {
        assert(prefix[i] == lines[i]);
        lemma_first_position_knows(prefix, i, j);
        match line_target(lines.last()) {
            Some(values) => {
                lemma_add_absent_knows(first_position(prefix), values, axis);
            },
            None => {},
        }
    } else {
        let values = line_target(lines.last()).unwrap();
        lemma_add_absent_knows(first_position(prefix), values, axis);
        assert(values[j].0 == axis);
    }
}

proof fn lemma_walk_known(p: Seq<(usize, Decimal)>, lines: Seq<LineModel>)
    requires
        forall|i: int, j: int|
            #![trigger line_target(lines[i]), knows(p, line_target(lines[i]).unwrap()[j].0)]
            0 <= i < lines.len() && line_target(lines[i]) is Some && 0 <= j < line_target(
                lines[i],
            ).unwrap().len() ==> knows(p, line_target(lines[i]).unwrap()[j].0),
    ensures
        walk(p, lines) matches Some(q) && forall|a: usize| knows(p, a) <==> #[trigger] knows(q, a),
    decreases lines.len(),
{
    if lines.len() > 0 {
        let prefix = lines.drop_last();
        assert forall|i: int, j: int|
            #![trigger line_target(prefix[i]), knows(p, line_target(prefix[i]).unwrap()[j].0)]
            0 <= i < prefix.len() && line_target(prefix[i]) is Some && 0 <= j < line_target(
                prefix[i],
            ).unwrap().len() implies knows(p, line_target(prefix[i]).unwrap()[j].0) by {
            assert(prefix[i] == lines[i]);
            assert(line_target(lines[i]) == line_target(prefix[i]));
        }
        lemma_walk_known(p, prefix);
        let q = walk(p, prefix).unwrap();
        match line_target(lines.last()) {
            Some(values) => {
                let last = lines.len() - 1;
                assert(lines[last] == lines.last());
                assert forall|j: int| 0 <= j < values.len() implies knows(
                    q,
                    #[trigger] values[j].0,
                ) by {
                    assert(line_target(lines[last]) == Some(values));
                    assert(knows(p, line_target(lines[last]).unwrap()[j].0));
                }
                lemma_updated_known(q, values);
            },
            None => {},
        }
    }
}

/// Law: a program walked from its own first position never names an axis
/// that is not known: every move of it updates the position without error.
pub proof fn law_walk_from_first_position(lines: Seq<LineModel>)
    ensures
        walk(first_position(lines), lines) is Some,
{
    let p = first_position(lines);
    assert forall|i: int, j: int|
        #![trigger line_target(lines[i]), knows(p, line_target(lines[i]).unwrap()[j].0)]
        0 <= i < lines.len() && line_target(lines[i]) is Some && 0 <= j < line_target(
            lines[i],
        ).unwrap().len() implies knows(p, line_target(lines[i]).unwrap()[j].0) by {
        lemma_first_position_knows(lines, i, j);
    }
    lemma_walk_known(p, lines);
}

/// Law: what a position says of an axis. Looking an axis up gives the value
/// of the first pair naming it, or nothing when no pair names it. Setting an
/// axis makes it read as the value set and leaves every other axis as it
/// was; a known axis is changed in place, an unknown one is added at the end.
pub proof fn law_position_axes(p: Seq<(usize, Decimal)>, axis: usize, other: usize, v: Decimal)
    ensures
        lookup(p, axis) is None <==> forall|j: int| 0 <= j < p.len() ==> #[trigger] p[j].0 != axis,
        lookup(p, axis) matches Some(x) ==> exists|i: int|
            0 <= i < p.len() && #[trigger] p[i] == (axis, x) && forall|j: int|
                0 <= j < i ==> #[trigger] p[j].0 != axis,
        lookup(set_axis(p, axis, v), axis) == Some(v),
        other != axis ==> lookup(set_axis(p, axis, v), other) == lookup(p, other),
        lookup(p, axis) is Some ==> set_axis(p, axis, v).len() == p.len(),
        lookup(p, axis) is None ==> set_axis(p, axis, v) == p.push((axis, v)),
{
    lemma_index_of(p, axis);
    lemma_index_of(p, other);
    let q = set_axis(p, axis, v);
    lemma_index_of(q, axis);
    lemma_index_of(q, other);
    match index_of(p, axis) {
        Some(i) => {
            assert(p[i as int] == (axis, p[i as int].1));
            assert(q[i as int] == (axis, v));
            assert forall|j: int| 0 <= j < i implies #[trigger] q[j].0 != axis by {
                assert(q[j] == p[j]);
            }
            match index_of(q, axis) {
                Some(k) => {
                    if k < i {
                        assert(q[k as int] == p[k as int]);
                    } else if k > i {
                        assert(q[i as int].0 == axis);
                    }
                },
                None => {
                    assert(q[i as int].0 == axis);
                },
            }
            if other != axis {
                match index_of(p, other) {
                    Some(k) => {
                        assert(q[k as int] == p[k as int]);
                        assert forall|j: int| 0 <= j < k implies #[trigger] q[j].0 != other by {
                            if j != i {
                                assert(q[j] == p[j]);
                            }
                        }
                    },
                    None => {
                        assert forall|j: int| 0 <= j < q.len() implies #[trigger] q[j].0 != other by {
                            if j != i {
                                assert(q[j] == p[j]);
                            }
                        }
                    },
                }
            }
        },
        None => {
            assert(q[p.len() as int] == (axis, v));
            assert forall|j: int| 0 <= j < p.len() implies #[trigger] q[j].0 != axis by {
                assert(q[j] == p[j]);
            }
            match index_of(q, axis) {
                Some(k) => {
                    if k < p.len() {
                        assert(q[k as int] == p[k as int]);
                    }
                },
                None => {
                    assert(q[p.len() as int].0 == axis);
                },
            }
            if other != axis {
                match index_of(p, other) {
                    Some(k) => {
                        assert(q[k as int] == p[k as int]);
                        assert forall|j: int| 0 <= j < k implies #[trigger] q[j].0 != other by {
                            assert(q[j] == p[j]);
                        }
                    },
                    None => {
                        assert forall|j: int| 0 <= j < q.len() implies #[trigger] q[j].0 != other by {
                            if j < p.len() {
                                assert(q[j] == p[j]);
                            }
                        }
                    },
                }
            }
        },
    }
}

} // verus!
