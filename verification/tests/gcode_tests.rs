use cnc_control::gcode::{
    AxisValues, CoordinateSystem, GCodeCommand, GCodeFormatSpecification, GCodeLine, GCodeModal,
    MoveMode, OffsetAxisValues, Orientation, Plane, ProbeDirection, ProbeRequirement, Unit,
};
use cnc_control::gcode_parser::parse_gcode_line;
use cnc_control::program::read_program;
use cnc_control::number::{parse_decimal_token, Decimal};

fn dec(x: f64) -> Decimal {
    parse_decimal_token(format!("{}", x).as_bytes()).unwrap()
}

fn default_settings() -> GCodeFormatSpecification {
    GCodeFormatSpecification {
        axis_letters: b"XYZA".to_vec(),
        offset_axis_letters: b"IJK".to_vec(),
        float_digits: 2,
    }
}

fn line_to_string(line: &GCodeLine) -> String {
    String::from_utf8(default_settings().format_line(line)).unwrap()
}

#[test]
fn test_simple_line() {
    let line = GCodeLine {
        modals: vec![GCodeModal::SetFeedrate(dec(1000.0))],
        command: Some(GCodeCommand::Move {
            mode: MoveMode::Controlled,
            position: AxisValues(vec![(0, dec(50.002)), (1, dec(12.5))]),
        }),
    };
    assert_eq!(line_to_string(&line), "F1000.00 G1 X50.00 Y12.50");
}

#[test]
fn test_no_modal_line() {
    let line = GCodeLine {
        modals: vec![],
        command: Some(GCodeCommand::Move {
            mode: MoveMode::Rapid,
            position: AxisValues(vec![(0, dec(0.0)), (2, dec(-1.0 / 3.0))]),
        }),
    };
    assert_eq!(line_to_string(&line), "G0 X0.00 Z-0.33");
}

#[test]
fn test_no_command_line() {
    let line = GCodeLine {
        modals: vec![GCodeModal::SetUnits(Unit::Millimeter)],
        command: None,
    };
    assert_eq!(line_to_string(&line), "G21");
}

#[test]
fn test_multiple_modal() {
    let line = GCodeLine {
        modals: vec![
            GCodeModal::SetUnits(Unit::Millimeter),
            GCodeModal::SetArcPlane(Plane::YZ),
        ],
        command: None,
    };
    assert_eq!(line_to_string(&line), "G21 G19");
}

#[test]
fn test_parse() {
    let input = "G10 L2 X5 Y123 Z23 G90 G21 F250";
    let result = parse_gcode_line(&default_settings(), input.as_bytes());
    println!("{:?}", result);
    // `G10` must be followed by `L20`.
    assert!(result.is_none());
}

fn parse(line: &str) -> Option<GCodeLine> {
    parse_gcode_line(&default_settings(), line.as_bytes())
}

fn positions(c: &GCodeCommand) -> Vec<(usize, Decimal)> {
    match c {
        GCodeCommand::Move { position, .. } => position.0.clone(),
        GCodeCommand::ArcMove { position, .. } => position.0.clone(),
        GCodeCommand::SetWorkCoordinateTo(v) => v.0.clone(),
        GCodeCommand::Probe { position, .. } => position.0.clone(),
        GCodeCommand::Dwell { .. } => vec![],
    }
}

#[test]
fn parser_reads_moves_and_modals() {
    let line = parse("F100 G1X1 Y-2.5").unwrap();
    assert_eq!(line.modals, vec![GCodeModal::SetFeedrate(dec(100.0))]);
    match line.command {
        Some(c @ GCodeCommand::Move { mode: MoveMode::Controlled, .. }) => {
            assert_eq!(positions(&c), vec![(0, dec(1.0)), (1, dec(-2.5))]);
        }
        other => panic!("unexpected {:?}", other),
    }
    let line = parse("G21 G90 M3").unwrap();
    assert_eq!(line.modals.len(), 3);
    assert!(line.command.is_none());
    // Two motion words on one line are refused, as is an unknown word.
    assert!(parse("G0 G1 X1").is_none());
    assert!(parse("G99").is_none());
    assert!(parse("GX1").is_none());
    assert!(parse("Q1").is_none());
}

#[test]
fn parser_reads_dwell_arcs_and_offsets() {
    match parse("G4 P1.5").unwrap().command {
        Some(GCodeCommand::Dwell { duration }) => assert_eq!(duration, dec(1.5)),
        other => panic!("unexpected {:?}", other),
    }
    // A dwell needs its duration, and `P` may be given once.
    assert!(parse("G4").is_none());
    assert!(parse("G4 P1 P2").is_none());
    match parse("G2 X1 Y1 I1 J0 P2.7").unwrap().command {
        Some(GCodeCommand::ArcMove { offsets, revolutions, .. }) => {
            assert_eq!(offsets.0, vec![(0, dec(1.0)), (1, dec(0.0))]);
            assert_eq!(revolutions, Some(2));
        }
        other => panic!("unexpected {:?}", other),
    }
    match parse("G10 L20 X0 Y0").unwrap().command {
        Some(c @ GCodeCommand::SetWorkCoordinateTo(_)) => {
            assert_eq!(positions(&c), vec![(0, dec(0.0)), (1, dec(0.0))]);
        }
        other => panic!("unexpected {:?}", other),
    }
    let probes = [
        ("G38.2 Z-5", ProbeDirection::Towards, ProbeRequirement::Require),
        ("G38.3 Z-5", ProbeDirection::Towards, ProbeRequirement::Optional),
        ("G38.4 Z-5", ProbeDirection::Away, ProbeRequirement::Require),
        ("G38.5 Z-5", ProbeDirection::Away, ProbeRequirement::Optional),
    ];
    for (text, want_mode, want_requirement) in probes {
        match parse(text).unwrap().command {
            Some(c @ GCodeCommand::Probe { .. }) => {
                assert_eq!(positions(&c), vec![(2, dec(-5.0))]);
                if let GCodeCommand::Probe { mode, requirement, .. } = c {
                    assert_eq!(mode, want_mode);
                    assert_eq!(requirement, want_requirement);
                }
            }
            other => panic!("unexpected {:?}", other),
        }
    }
    assert!(parse("G38.6 Z-5").is_none());
}

#[test]
fn formatted_probe_line_reads_back() {
    let line = GCodeLine {
        modals: vec![GCodeModal::SetUnits(Unit::Millimeter)],
        command: Some(GCodeCommand::Probe {
            position: AxisValues(vec![(2, dec(-5.0))]),
            mode: ProbeDirection::Away,
            requirement: ProbeRequirement::Optional,
        }),
    };
    let text = default_settings().format_line(&line);
    assert_eq!(String::from_utf8(text.clone()).unwrap(), "G21 G38.5 Z-5.00");
    let back = parse_gcode_line(&default_settings(), &text).unwrap();
    assert_eq!(format!("{:?}", back), format!("{:?}", line));
}

#[test]
fn formatted_line_reads_back() {
    let line = GCodeLine {
        modals: vec![
            GCodeModal::SetFeedrate(dec(1000.0)),
            GCodeModal::SetUnits(Unit::Millimeter),
            GCodeModal::EndProgram,
        ],
        command: Some(GCodeCommand::Move {
            mode: MoveMode::Controlled,
            position: AxisValues(vec![(0, dec(50.25)), (2, dec(-12.5))]),
        }),
    };
    let text = default_settings().format_line(&line);
    assert_eq!(String::from_utf8(text.clone()).unwrap(), "F1000.00 G21 M2 G1 X50.25 Z-12.50");
    let back = parse_gcode_line(&default_settings(), &text).unwrap();
    assert_eq!(format!("{:?}", back), format!("{:?}", line));
}

#[test]
fn formatted_rapid_without_axes_reads_back() {
    let line = GCodeLine {
        modals: vec![],
        command: Some(GCodeCommand::Move { mode: MoveMode::Rapid, position: AxisValues(vec![]) }),
    };
    let text = default_settings().format_line(&line);
    assert_eq!(String::from_utf8(text.clone()).unwrap(), "G0 ");
    let back = parse_gcode_line(&default_settings(), &text).unwrap();
    assert_eq!(format!("{:?}", back), format!("{:?}", line));
}

#[test]
fn program_with_blank_lines_is_read() {
    let lines: Vec<Vec<u8>> = vec![b"G21 G90".to_vec(), b"  \t".to_vec(), b"G1 X1 Y2".to_vec()];
    let program = read_program(&default_settings(), &lines).unwrap();
    assert_eq!(program.len(), 3);
    assert!(program[0].is_some());
    assert!(program[1].is_none());
    assert!(program[2].is_some());
}

#[test]
fn program_reports_every_bad_line() {
    let lines: Vec<Vec<u8>> = vec![
        b"G1 X1".to_vec(),
        b"G1 Q5".to_vec(),
        b"".to_vec(),
        b"G10 L2 X0".to_vec(),
        b"G0 Z3".to_vec(),
    ];
    assert_eq!(read_program(&default_settings(), &lines).unwrap_err(), vec![2, 4]);
}

#[test]
fn formatted_arc_dwell_and_offset_lines_read_back() {
    let lines = vec![
        GCodeLine {
            modals: vec![GCodeModal::SetArcPlane(Plane::XY)],
            command: Some(GCodeCommand::ArcMove {
                orientation: Orientation::Counterclockwise,
                position: AxisValues(vec![(0, dec(10.0)), (1, dec(5.5))]),
                offsets: OffsetAxisValues(vec![(0, dec(2.5)), (1, dec(-1.0))]),
                revolutions: Some(3),
            }),
        },
        GCodeLine {
            modals: vec![],
            command: Some(GCodeCommand::Dwell { duration: dec(0.5) }),
        },
        GCodeLine {
            modals: vec![GCodeModal::SetCoordinateSystem(CoordinateSystem::Coord1)],
            command: Some(GCodeCommand::SetWorkCoordinateTo(AxisValues(vec![(2, dec(0.0))]))),
        },
    ];
    let expected = ["G17 G3 X10.00 Y5.50 I2.50 J-1.00P3", "G4 P0.50", "G55 G10 L20 Z0.00"];
    for (line, text) in lines.iter().zip(expected.iter()) {
        let written = default_settings().format_line(line);
        assert_eq!(String::from_utf8(written.clone()).unwrap(), *text);
        let back = parse_gcode_line(&default_settings(), &written).unwrap();
        assert_eq!(format!("{:?}", back), format!("{:?}", line));
    }
}

#[test]
fn lines_written_without_decimals_read_back() {
    let spec = GCodeFormatSpecification {
        axis_letters: b"XYZA".to_vec(),
        offset_axis_letters: b"IJK".to_vec(),
        float_digits: 0,
    };
    let line = GCodeLine {
        modals: vec![GCodeModal::SetFeedrate(dec(300.0))],
        command: Some(GCodeCommand::Move {
            mode: MoveMode::Controlled,
            position: AxisValues(vec![(0, dec(5.0)), (1, dec(-12.0))]),
        }),
    };
    let text = spec.format_line(&line);
    assert_eq!(String::from_utf8(text.clone()).unwrap(), "F300 G1 X5 Y-12");
    let back = parse_gcode_line(&spec, &text).unwrap();
    assert_eq!(format!("{:?}", back), format!("{:?}", line));
}

#[test]
fn long_numbers_are_read_and_written_back() {
    let line = parse("G1 X1.234567890123456789012345 Y-0.5").unwrap();
    match &line.command {
        Some(c @ GCodeCommand::Move { .. }) => {
            assert_eq!(positions(c)[0].1.mantissa, 1234567890123456789012345);
            assert_eq!(positions(c)[0].1.exponent, 24);
        }
        other => panic!("unexpected {:?}", other),
    }
    let spec = GCodeFormatSpecification {
        axis_letters: b"XYZA".to_vec(),
        offset_axis_letters: b"IJK".to_vec(),
        float_digits: 24,
    };
    let text = spec.format_line(&line);
    assert_eq!(
        String::from_utf8(text.clone()).unwrap(),
        "G1 X1.234567890123456789012345 Y-0.500000000000000000000000"
    );
    let back = parse_gcode_line(&spec, &text).unwrap();
    assert_eq!(format!("{:?}", back), format!("{:?}", line));
}
