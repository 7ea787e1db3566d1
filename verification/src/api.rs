//! Requests and routes shared by the server and its clients.
use vstd::prelude::*;

verus! {

/// The routes of one override: back to 100%, and steps up and down.
pub struct OverrideControl<'a> {
    pub reset: &'a str,
    pub plus_10: &'a str,
    pub plus_1: &'a str,
    pub minus_1: &'a str,
    pub minus_10: &'a str,
}

/// The routes of the rapid override.
pub struct RapidOverride<'a> {
    pub reset: &'a str,
    pub half: &'a str,
    pub quarter: &'a str,
}

pub struct RunGcodeFile {
    pub path: String,
}

pub struct DeleteGcodeFile {
    pub path: String,
    pub is_directory: bool,
}

pub struct ListGcodeFiles {
    pub prefix: String,
}

pub struct CreateGcodeDirectory {
    pub directory: String,
}

#[derive(Clone, Debug)]
pub struct GcodeFile {
    pub name: String,
    pub is_file: bool,
}

/// What a directory entry is.
#[derive(Clone, Copy, Debug, PartialEq, Eq, Structural)]
pub enum EntryType {
    File,
    Directory,
}

pub struct ExamineGcodeFile {
    pub path: String,
}

/// Which transformation an offset describes.
#[derive(Clone, Copy, Debug, PartialEq, Eq, Structural)]
pub enum OffsetKind {
    /// Machine coordinates to bed coordinates (through the tool).
    Tool,
    /// Bed coordinates to work coordinates.
    Workpiece,
}

pub struct DeleteCoordinateOffset {
    pub name: String,
    pub offset_kind: OffsetKind,
}

pub const RUN_GCODE_FILE: &'static str = "/job/run_file";

pub const UPLOAD_GCODE_FILE: &'static str = "/job/upload_file";

pub const CREATE_GCODE_DIRECTORY: &'static str = "/job/create_directory";

pub const DELETE_GCODE_FILE: &'static str = "/job/delete_file";

pub const LIST_GCODE_FILES: &'static str = "/job/list_files";

pub const EXAMINE_LINES_IN_GCODE_FILE: &'static str = "/job/examine_lines_in_file";

pub const DOWNLOAD_GCODE: &'static str = "/job/download_file";

pub const SEND_RAW_GCODE: &'static str = "/debug/send";

pub const LISTEN_TO_RAW_MACHINE: &'static str = "/debug/listen_raw";

pub const LISTEN_TO_JOB_STATUS: &'static str = "/debug/listen_status";

pub const LISTEN_TO_MACHINE_STATUS: &'static str = "/debug/listen_position";

pub const COMMAND_PAUSE: &'static str = "/command/pause";

pub const COMMAND_RESUME: &'static str = "/command/resume";

pub const COMMAND_STOP: &'static str = "/command/stop";

pub const COMMAND_RESET: &'static str = "/command/reset";

pub const SHUTDOWN: &'static str = "/shutdown";

pub const OFFSETS: &'static str = "/coords/offsets";

pub const POSITIONS: &'static str = "/coords/positions";

/// The routes of the feed override.
pub fn feed_override() -> (r: OverrideControl<'static>)
    ensures
        r.reset@ == "/command/override/feed/reset"@,
        r.plus_10@ == "/command/override/feed/plus10"@,
        r.plus_1@ == "/command/override/feed/plus1"@,
        r.minus_1@ == "/command/override/feed/minus1"@,
        r.minus_10@ == "/command/override/feed/minus10"@,
{
    OverrideControl {
        reset: "/command/override/feed/reset",
        plus_10: "/command/override/feed/plus10",
        plus_1: "/command/override/feed/plus1",
        minus_1: "/command/override/feed/minus1",
        minus_10: "/command/override/feed/minus10",
    }
}

/// The routes of the spindle override.
pub fn spindle_override() -> (r: OverrideControl<'static>)
    ensures
        r.reset@ == "/command/override/spindle/reset"@,
        r.plus_10@ == "/command/override/spindle/plus10"@,
        r.plus_1@ == "/command/override/spindle/plus1"@,
        r.minus_1@ == "/command/override/spindle/minus1"@,
        r.minus_10@ == "/command/override/spindle/minus10"@,
{
    OverrideControl {
        reset: "/command/override/spindle/reset",
        plus_10: "/command/override/spindle/plus10",
        plus_1: "/command/override/spindle/plus1",
        minus_1: "/command/override/spindle/minus1",
        minus_10: "/command/override/spindle/minus10",
    }
}

/// The routes of the rapid override.
pub fn rapid_override() -> (r: RapidOverride<'static>)
    ensures
        r.reset@ == "/command/override/rapid/reset"@,
        r.half@ == "/command/override/rapid/half"@,
        r.quarter@ == "/command/override/rapid/quarter"@,
{
    RapidOverride {
        reset: "/command/override/rapid/reset",
        half: "/command/override/rapid/half",
        quarter: "/command/override/rapid/quarter",
    }
}

} // verus!
