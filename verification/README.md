# cnc_control

Control software for a GRBL-driven CNC router, with its core verified by Verus.

## Layout

- `src/` — the verified library.
  - `text.rs`, `number.rs`: byte-level text helpers and exact decimal numbers
    (reading tokens, fixed-point writing, exact sums and differences).
  - `gcode.rs`, `gcode_parser.rs`, `gcode_display.rs`: G-code lines, the
    grammar the server accepts, and how lines are written for the controller.
  - `gcode_roundtrip.rs`: the proof that a written line is read back as the
    same line, for lines whose numbers are written exactly in at most 38
    digits (the reader's limit, what a decimal's mantissa holds), with axis letters the reader can tell apart,
    and without a spindle speed or a move lacking its `G` word.
  - `program.rs`: checking every line of a G-code file before it runs.
  - `grbl_messages.rs`, `grbl_parser.rs`: what the controller reports and the
    grammar of its lines.
  - `machine_writer.rs`: accounting of the controller's receive buffer.
  - `machine.rs`: the connection state machine (which request each reply
    answers, what a reset does).
  - `handler.rs`: the request handler's queues and job bookkeeping, and the
    proof that at most one job runs at a time.
  - `geometry.rs`: following the tool's position through a program.
  - `cut_schedule.rs`: the order in which pocket rings may be cut.
  - `svg_path.rs`: splitting SVG path data into commands and numbers.
  - `jobs.rs`, `api.rs`, `paths.rs`: small shared pieces.
- `tests/` — tests of the library.
- `app/` — the server program: serial port, HTTP routes, websockets, and the
  task that performs what the library's state machines decide; also the
  `svg2wkt` converter, whose geometry is in floating point.
