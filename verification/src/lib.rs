//! Machine-control library for a GRBL-driven CNC router: G-code and GRBL
//! protocol grammars, the line-buffer accounting used when streaming to the
//! controller, the controller state machine, and tool-path planning helpers.
pub mod text;
pub mod number;
pub mod gcode;
pub mod gcode_parser;
pub mod gcode_display;
pub mod grbl_messages;
pub mod grbl_parser;
pub mod machine_writer;
pub mod machine;
pub mod api;
pub mod jobs;
pub mod geometry;
pub mod handler;
pub mod paths;
pub mod cut_schedule;
pub mod svg_path;
pub mod gcode_roundtrip;
pub mod program;
