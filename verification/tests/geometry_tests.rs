use cnc_control::gcode::{
    AxisValues, GCodeCommand, GCodeFormatSpecification, GCodeLine, MoveMode, Orientation, Plane,
};
use cnc_control::gcode_parser::parse_gcode_line;
use cnc_control::geometry::{
    arc_indices, get_first_position, get_latter_value, update_position, GCodePositionError,
};
use cnc_control::jobs::default_settings;
use cnc_control::number::{parse_decimal_token, Decimal};

fn dec(x: f64) -> Decimal {
    parse_decimal_token(format!("{}", x).as_bytes()).unwrap()
}

fn mv(values: &[(usize, f64)]) -> GCodeLine {
    GCodeLine {
        modals: vec![],
        command: Some(GCodeCommand::Move {
            mode: MoveMode::Controlled,
            position: AxisValues(values.iter().map(|(i, v)| (*i, dec(*v))).collect()),
        }),
    }
}

#[test]
fn arc_indices_follow_plane_and_orientation() {
    assert_eq!(arc_indices(Plane::XY, Orientation::Counterclockwise), (0, 1));
    assert_eq!(arc_indices(Plane::XY, Orientation::Clockwise), (1, 0));
    assert_eq!(arc_indices(Plane::ZX, Orientation::Counterclockwise), (2, 0));
    assert_eq!(arc_indices(Plane::YZ, Orientation::Clockwise), (2, 1));
}

#[test]
fn latter_value_is_the_first_match() {
    let v = vec![(0, dec(1.0)), (2, dec(3.0)), (0, dec(5.0))];
    assert_eq!(get_latter_value(&v, 0), Some(dec(1.0)));
    assert_eq!(get_latter_value(&v, 2), Some(dec(3.0)));
    assert_eq!(get_latter_value(&v, 1), None);
}

#[test]
fn update_stops_at_an_unknown_axis() {
    let mut p = vec![(0, dec(0.0)), (1, dec(0.0))];
    assert_eq!(update_position(&mut p, &AxisValues(vec![(1, dec(2.0))])), Ok(()));
    assert_eq!(p, vec![(0, dec(0.0)), (1, dec(2.0))]);
    assert_eq!(
        update_position(&mut p, &AxisValues(vec![(0, dec(4.0)), (2, dec(1.0)), (1, dec(9.0))])),
        Err(GCodePositionError::BadAxis(2))
    );
    // The unknown axis is set all the same; what follows it is not.
    assert_eq!(p, vec![(0, dec(4.0)), (1, dec(2.0)), (2, dec(1.0))]);
}

#[test]
fn first_position_takes_each_axis_once() {
    let program = vec![mv(&[(0, 1.0)]), mv(&[(1, 2.0), (0, 5.0)]), mv(&[(2, -1.0), (1, 7.0)])];
    let first = get_first_position(&program);
    assert_eq!(first.0, vec![(0, dec(1.0)), (1, dec(2.0)), (2, dec(-1.0))]);
}

#[test]
fn a_program_walks_from_its_first_position() {
    let spec: GCodeFormatSpecification = default_settings();
    let program: Vec<GCodeLine> = ["G0 X1 Y2", "G1 Z-3", "G1 X4 Y5 Z6", "X7", "G21"]
        .iter()
        .map(|l| parse_gcode_line(&spec, l.as_bytes()).unwrap())
        .collect();
    let mut p = get_first_position(&program).0;
    for line in &program {
        if let Some(GCodeCommand::Move { position, .. }) = &line.command {
            assert_eq!(update_position(&mut p, position), Ok(()));
        }
    }
    assert_eq!(p, vec![(0, dec(4.0)), (1, dec(5.0)), (2, dec(6.0))]);
    // Axis words without a motion word make no command.
    assert!(program[3].command.is_none());
}
