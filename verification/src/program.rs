//! Reading a whole G-code program, line by line, before it is run.
use vstd::prelude::*;
use crate::gcode::{GCodeFormatSpecification, GCodeLine, LineModel};
use crate::gcode_parser::{gcode_line, parse_gcode_line};

verus! {

/// White space as a line of text may hold it: space, tab, line feed,
/// vertical tab, form feed and carriage return.
pub open spec fn is_line_space(c: u8) -> bool {
    c == 32 || (9 <= c <= 13)
}

/// A line with nothing but white space on it.
pub open spec fn is_empty_line(s: Seq<u8>) -> bool {
    forall|i: int| 0 <= i < s.len() ==> is_line_space(#[trigger] s[i])
}

/// What a line of a program holds: nothing, for an empty line, or a G-code
/// line; `None` when it is neither.
pub open spec fn program_line(spec: GCodeFormatSpecification, s: Seq<u8>) -> Option<
    Option<LineModel>,
> {
    if is_empty_line(s) {
        Some(None)
    } else {
        match gcode_line(spec, s) {
            Some(l) => Some(Some(l)),
            None => None,
        }
    }
}

/// The 1-based numbers of the lines that cannot be read, in order.
pub open spec fn bad_line_numbers(spec: GCodeFormatSpecification, lines: Seq<Seq<u8>>) -> Seq<
    usize,
>
    decreases lines.len(),
{
    if lines.len() == 0 {
        Seq::empty()
    } else {
        bad_line_numbers(spec, lines.drop_last()) + if program_line(spec, lines.last()) is None {
            seq![lines.len() as usize]
        } else {
            Seq::empty()
        }
    }
}

/// The content of a read line, as the program holds it.
pub open spec fn read_line_view(l: Option<GCodeLine>) -> Option<LineModel> {
    match l {
        Some(line) => Some(line@),
        None => None,
    }
}

/// Whether a line holds nothing but white space.
pub fn is_empty_text(s: &[u8]) -> (b: bool)
    ensures
        b == is_empty_line(s@),
{
    let mut i: usize = 0;
    while i < s.len()
        invariant
            i <= s.len(),
            forall|j: int| 0 <= j < i ==> is_line_space(#[trigger] s@[j]),
        decreases s.len() - i,
    {
        let c = s[i];
        if !(c == 32 || (9 <= c && c <= 13)) {
            return false;
        }
        i = i + 1;
    }
    true
}

/// Reads one line of a program: `Some(None)` for an empty line, `Some(Some(line))`
/// for a G-code line, `None` when the line cannot be read.
pub fn read_program_line(spec: &GCodeFormatSpecification, s: &[u8]) -> (r: Option<Option<GCodeLine>>)
    ensures
        match r {
            Some(l) => program_line(*spec, s@) == Some(read_line_view(l)),
            None => program_line(*spec, s@) is None,
        },
{
    if is_empty_text(s) {
        Some(None)
    } else {
        match parse_gcode_line(spec, s) {
            Some(line) => Some(Some(line)),
            None => None,
        }
    }
}

/// Reads every line of a program. It is read only if every line can be;
/// otherwise the numbers (from 1) of the lines that cannot be read are given.
pub fn read_program(spec: &GCodeFormatSpecification, lines: &Vec<Vec<u8>>) -> (r: Result<
    Vec<Option<GCodeLine>>,
    Vec<usize>,
>)
    ensures
        match r {
            Ok(program) => {
                &&& program.len() == lines.len()
                &&& forall|i: int|
                    0 <= i < lines.len() ==> program_line(*spec, #[trigger] lines@[i]@) == Some(
                        read_line_view(program@[i]),
                    )
            },
            Err(bad) => {
                &&& bad@.len() > 0
                &&& bad@ == bad_line_numbers(*spec, lines@.map_values(|l: Vec<u8>| l@))
            },
        },
        r is Ok <==> forall|i: int|
            0 <= i < lines.len() ==> program_line(*spec, #[trigger] lines@[i]@) is Some,
{
    let ghost texts = lines@.map_values(|l: Vec<u8>| l@);
    let mut program: Vec<Option<GCodeLine>> = Vec::new();
    let mut bad: Vec<usize> = Vec::new();
    let mut i: usize = 0;
    while i < lines.len()
        invariant
            i <= lines.len(),
            texts == lines@.map_values(|l: Vec<u8>| l@),
            bad@ == bad_line_numbers(*spec, texts.take(i as int)),
            bad@.len() == 0 ==> {
                &&& program.len() == i
                &&& forall|j: int|
                    0 <= j < i ==> program_line(*spec, #[trigger] lines@[j]@) == Some(
                        read_line_view(program@[j]),
                    )
            },
            bad@.len() == 0 <==> forall|j: int|
                0 <= j < i ==> program_line(*spec, #[trigger] lines@[j]@) is Some,
        decreases lines.len() - i,
    {
        let r = read_program_line(spec, lines[i].as_slice());
        proof {
            let t = texts.take(i as int + 1);
            assert(t.drop_last() =~= texts.take(i as int));
            assert(t.last() == lines@[i as int]@);
        }
        match r {
            Some(l) => {
                if bad.len() == 0 {
                    program.push(l);
                }
                proof {
                    assert(bad_line_numbers(*spec, texts.take(i as int + 1)) =~= bad@);
                }
            },
            None => {
                bad.push(i + 1);
                proof {
                    assert(bad_line_numbers(*spec, texts.take(i as int + 1)) =~= bad@);
                }
            },
        }
        i = i + 1;
    }
    proof {
        assert(texts.take(lines.len() as int) =~= texts);
    }
    if bad.len() == 0 {
        Ok(program)
    } else {
        Err(bad)
    }
}

/// Law: a line is empty when it holds nothing but spaces, tabs, line feeds,
/// vertical tabs, form feeds and carriage returns; any other byte makes it a
/// line to read, and an empty line is never an error.
pub proof fn law_empty_lines(spec: GCodeFormatSpecification, s: Seq<u8>, b: u8)
    ensures
        is_empty_line(seq![0x20u8, 0x09u8, 0x0Au8, 0x0Bu8, 0x0Cu8, 0x0Du8]),
        !(b == 0x20 || (0x09 <= b <= 0x0D)) ==> !is_empty_line(s.push(b)),
        is_empty_line(s) ==> program_line(spec, s) == Some(None::<LineModel>),
        !is_empty_line(s) ==> (program_line(spec, s) is Some <==> gcode_line(spec, s) is Some),
{
    let w = seq![0x20u8, 0x09u8, 0x0Au8, 0x0Bu8, 0x0Cu8, 0x0Du8];
    assert forall|i: int| 0 <= i < w.len() implies is_line_space(#[trigger] w[i]) by {}
    if !(b == 0x20 || (0x09 <= b <= 0x0D)) {
        assert(s.push(b)[s.len() as int] == b);
    }
}

} // verus!
