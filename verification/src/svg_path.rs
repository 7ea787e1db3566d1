//! The grammar of SVG path data made of straight segments: `M`/`m` (move),
//! `L`/`l` (line), `H`/`h`, `V`/`v` (horizontal and vertical lines) and
//! `Z`/`z` (close), each followed by its numbers.
//!
//! Numbers are found here as tokens (byte ranges of the input) in the float
//! syntax: an optional sign, digits with an optional point (or a point and
//! digits), an optional exponent, or `nan`/`inf` in any case. Turning the
//! tokens into numbers and following the pen is left to the caller.
use vstd::prelude::*;
use vstd::string::StringSliceAdditionalSpecFns;

verus! {

#[derive(Debug, Clone, Copy, PartialEq, Eq, Structural)]
pub enum Mode {
    MoveAbsolute,
    MoveRelative,
    LineAbsolute,
    LineRelative,
    HorizontalAbsolute,
    HorizontalRelative,
    VerticalAbsolute,
    VerticalRelative,
    ClosePath,
}

pub open spec fn mode_of(b: u8) -> Option<Mode> {
    if b == 77 {
        Some(Mode::MoveAbsolute)
    } else if b == 109 {
        Some(Mode::MoveRelative)
    } else if b == 76 {
        Some(Mode::LineAbsolute)
    } else if b == 108 {
        Some(Mode::LineRelative)
    } else if b == 72 {
        Some(Mode::HorizontalAbsolute)
    } else if b == 104 {
        Some(Mode::HorizontalRelative)
    } else if b == 86 {
        Some(Mode::VerticalAbsolute)
    } else if b == 118 {
        Some(Mode::VerticalRelative)
    } else if b == 90 || b == 122 {
        Some(Mode::ClosePath)
    } else {
        None
    }
}

/// Whether the mode's numbers come in `x,y` pairs.
pub open spec fn takes_pairs(m: Mode) -> bool {
    m == Mode::MoveAbsolute || m == Mode::MoveRelative || m == Mode::LineAbsolute || m
        == Mode::LineRelative
}

pub open spec fn is_space(b: u8) -> bool {
    b == 32 || b == 9
}

pub open spec fn is_digit_at(s: Seq<u8>, p: int) -> bool {
    0 <= p < s.len() && 48 <= s[p] <= 57
}

pub open spec fn is_at(s: Seq<u8>, p: int, b: u8) -> bool {
    0 <= p < s.len() && s[p] == b
}

/// The first position from `p` on that is not a space or a tab.
pub open spec fn skip_spaces(s: Seq<u8>, p: nat) -> nat
    decreases s.len() - p,
{
    if p < s.len() && is_space(s[p as int]) {
        skip_spaces(s, p + 1)
    } else {
        p
    }
}

/// The first position from `p` on that is not a digit.
pub open spec fn skip_digits(s: Seq<u8>, p: nat) -> nat
    decreases s.len() - p,
{
    if is_digit_at(s, p as int) {
        skip_digits(s, p + 1)
    } else {
        p
    }
}

proof fn lemma_skip_digits_ge(s: Seq<u8>, p: nat)
    ensures
        skip_digits(s, p) >= p,
        is_digit_at(s, p as int) ==> skip_digits(s, p) > p,
    decreases s.len() - p,
{
    if is_digit_at(s, p as int) {
        lemma_skip_digits_ge(s, p + 1);
    }
}

pub open spec fn lower(b: u8) -> u8 {
    if 65 <= b <= 90 {
        (b + 32) as u8
    } else {
        b
    }
}

/// The three bytes from `p` spell `w` in any case.
pub open spec fn word_at(s: Seq<u8>, p: nat, w: Seq<u8>) -> bool {
    p + 3 <= s.len() && lower(s[p as int]) == w[0] && lower(s[p + 1 as int]) == w[1] && lower(s[p + 2 as int])
        == w[2]
}

/// Where the digits (with their optional point) of a number starting at `q`
/// end, if there are any.
pub open spec fn mantissa_end(s: Seq<u8>, q: nat) -> Option<nat> {
    if is_digit_at(s, q as int) {
        let q1 = skip_digits(s, q);
        if is_at(s, q1 as int, 46) {
            Some(skip_digits(s, q1 + 1))
        } else {
            Some(q1)
        }
    } else if is_at(s, q as int, 46) && is_digit_at(s, q + 1 as int) {
        Some(skip_digits(s, q + 1))
    } else {
        None
    }
}

/// Where the number token starting at `p` ends. An exponent mark not
/// followed by digits makes the token unreadable.
pub open spec fn float_end(s: Seq<u8>, p: nat) -> Option<nat> {
    let q0 = if is_at(s, p as int, 43) || is_at(s, p as int, 45) {
        p + 1
    } else {
        p
    };
    match mantissa_end(s, q0) {
        Some(q) => if is_at(s, q as int, 101) || is_at(s, q as int, 69) {
            let r0 = if is_at(s, q + 1 as int, 43) || is_at(s, q + 1 as int, 45) {
                q + 2
            } else {
                q + 1
            };
            if is_digit_at(s, r0 as int) {
                Some(skip_digits(s, r0))
            } else {
                None
            }
        } else {
            Some(q)
        },
        None => if word_at(s, p, seq![110u8, 97u8, 110u8]) || word_at(
            s,
            p,
            seq![105u8, 110u8, 102u8],
        ) {
            Some(p + 3)
        } else {
            None
        },
    }
}

/// Number tokens read from `p` on, skipping spaces before each: single
/// numbers, or `x,y` pairs (two tokens each) for `pairs`; the second
/// component is where reading stopped.
pub open spec fn read_args(s: Seq<u8>, p: nat, pairs: bool) -> (Seq<(nat, nat)>, nat)
    decreases s.len() - p,
{
    let q = skip_spaces(s, p);
    if q > s.len() || q < p {
        (Seq::empty(), q)
    } else if pairs {
        match float_end(s, q) {
            Some(e1) => if is_at(s, e1 as int, 44) {
                match float_end(s, e1 + 1) {
                    Some(e2) => if q < e2 <= s.len() {
                        let (rest, r) = read_args(s, e2, pairs);
                        (seq![(q, e1), (e1 + 1, e2)] + rest, r)
                    } else {
                        (Seq::empty(), q)
                    },
                    None => (Seq::empty(), q),
                }
            } else {
                (Seq::empty(), q)
            },
            None => (Seq::empty(), q),
        }
    } else {
        match float_end(s, q) {
            Some(e) => if q < e <= s.len() {
                let (rest, r) = read_args(s, e, pairs);
                (seq![(q, e)] + rest, r)
            } else {
                (Seq::empty(), q)
            },
            None => (Seq::empty(), q),
        }
    }
}

pub struct SegmentModel {
    pub mode: Mode,
    pub args: Seq<(nat, nat)>,
}

/// The segments of path data from `p` on, or nothing when a command letter
/// is not one of the known ones.
pub open spec fn segments(s: Seq<u8>, p: nat) -> Option<Seq<SegmentModel>>
    decreases s.len() - p,
{
    let q = skip_spaces(s, p);
    if q >= s.len() {
        Some(Seq::empty())
    } else {
        match mode_of(s[q as int]) {
            None => None,
            Some(m) => {
                let (args, r) = if m == Mode::ClosePath {
                    (Seq::<(nat, nat)>::empty(), q + 1)
                } else {
                    read_args(s, q + 1, takes_pairs(m))
                };
                if p < r <= s.len() {
                    match segments(s, r) {
                        Some(rest) => Some(seq![SegmentModel { mode: m, args }] + rest),
                        None => None,
                    }
                } else {
                    None
                }
            },
        }
    }
}

/// One command of the path: its mode and the byte ranges of its numbers.
pub struct PathSegment {
    pub mode: Mode,
    pub args: Vec<(usize, usize)>,
}

pub open spec fn args_view(v: Seq<(usize, usize)>) -> Seq<(nat, nat)> {
    v.map_values(|a: (usize, usize)| (a.0 as nat, a.1 as nat))
}

pub open spec fn segments_view(v: Seq<PathSegment>) -> Seq<SegmentModel> {
    v.map_values(|g: PathSegment| SegmentModel { mode: g.mode, args: args_view(g.args@) })
}

fn skip_spaces_exec(s: &[u8], p: usize) -> (q: usize)
    requires
        p <= s.len(),
    ensures
        q == skip_spaces(s@, p as nat),
        p <= q <= s.len(),
{
    let mut q = p;
    while q < s.len() && (s[q] == 32 || s[q] == 9)
        invariant
            p <= q <= s.len(),
            skip_spaces(s@, q as nat) == skip_spaces(s@, p as nat),
        decreases s.len() - q,
    {
        q = q + 1;
    }
    q
}

fn skip_digits_exec(s: &[u8], p: usize) -> (q: usize)
    requires
        p <= s.len(),
    ensures
        q == skip_digits(s@, p as nat),
        p <= q <= s.len(),
{
    let mut q = p;
    while q < s.len() && 48 <= s[q] && s[q] <= 57
        invariant
            p <= q <= s.len(),
            skip_digits(s@, q as nat) == skip_digits(s@, p as nat),
        decreases s.len() - q,
    {
        q = q + 1;
    }
    q
}

fn lower_exec(b: u8) -> (r: u8)
    ensures
        r == lower(b),
{
    if 65 <= b && b <= 90 {
        b + 32
    } else {
        b
    }
}

fn word_at_exec(s: &[u8], p: usize, w0: u8, w1: u8, w2: u8) -> (b: bool)
    ensures
        b == word_at(s@, p as nat, seq![w0, w1, w2]),
{
    p <= s.len() && s.len() - p >= 3 && lower_exec(s[p]) == w0 && lower_exec(s[p + 1]) == w1
        && lower_exec(s[p + 2]) == w2
}

fn byte_is(s: &[u8], p: usize, b: u8) -> (r: bool)
    ensures
        r == is_at(s@, p as int, b),
{
    p < s.len() && s[p] == b
}

fn digit_is_at(s: &[u8], p: usize) -> (r: bool)
    ensures
        r == is_digit_at(s@, p as int),
{
    p < s.len() && 48 <= s[p] && s[p] <= 57
}

fn mantissa_end_exec(s: &[u8], q: usize) -> (r: Option<usize>)
    requires
        q <= s.len(),
    ensures
        match r {
            Some(e) => mantissa_end(s@, q as nat) == Some(e as nat) && q < e <= s.len(),
            None => mantissa_end(s@, q as nat) is None,
        },
{
    if digit_is_at(s, q) {
        let q1 = skip_digits_exec(s, q);
        proof {
            lemma_skip_digits_ge(s@, q as nat);
        }
        if byte_is(s, q1, 46) {
            Some(skip_digits_exec(s, q1 + 1))
        } else {
            Some(q1)
        }
    } else if byte_is(s, q, 46) && digit_is_at(s, q + 1) {
        Some(skip_digits_exec(s, q + 1))
    } else {
        None
    }
}

/// Where the number token starting at `p` ends; see [`float_end`].
pub fn float_end_exec(s: &[u8], p: usize) -> (r: Option<usize>)
    requires
        p <= s.len(),
    ensures
        match r {
            Some(e) => float_end(s@, p as nat) == Some(e as nat) && p < e <= s.len(),
            None => float_end(s@, p as nat) is None,
        },
{
    let q0 = if byte_is(s, p, 43) || byte_is(s, p, 45) {
        p + 1
    } else {
        p
    };
    match mantissa_end_exec(s, q0) {
        Some(q) => {
            if byte_is(s, q, 101) || byte_is(s, q, 69) {
                let r0 = if byte_is(s, q + 1, 43) || byte_is(s, q + 1, 45) {
                    q + 2
                } else {
                    q + 1
                };
                if digit_is_at(s, r0) {
                    Some(skip_digits_exec(s, r0))
                } else {
                    None
                }
            } else {
                Some(q)
            }
        },
        None => {
            if word_at_exec(s, p, 110, 97, 110) || word_at_exec(s, p, 105, 110, 102) {
                Some(p + 3)
            } else {
                None
            }
        },
    }
}

fn read_args_exec(s: &[u8], p: usize, pairs: bool, out: &mut Vec<(usize, usize)>) -> (r: usize)
    requires
        p <= s.len(),
    ensures
        args_view(final(out)@) == args_view(old(out)@) + read_args(s@, p as nat, pairs).0,
        r == read_args(s@, p as nat, pairs).1,
        p <= r <= s.len(),
{
    let mut pos = p;
    loop
        invariant
            p <= pos <= s.len(),
            args_view(out@) + read_args(s@, pos as nat, pairs).0 == args_view(old(out)@)
                + read_args(s@, p as nat, pairs).0,
            read_args(s@, pos as nat, pairs).1 == read_args(s@, p as nat, pairs).1,
        decreases s.len() - pos,
    {
        let q = skip_spaces_exec(s, pos);
        let ghost before = args_view(out@);
        if pairs {
            let e1 = match float_end_exec(s, q) {
                Some(e) => e,
                None => {
                    assert(read_args(s@, pos as nat, pairs).0 =~= Seq::<(nat, nat)>::empty());
                    assert(args_view(out@) =~= args_view(out@) + Seq::<(nat, nat)>::empty());
                    return q;
                },
            };
            if !byte_is(s, e1, 44) {
                assert(args_view(out@) =~= args_view(out@) + Seq::<(nat, nat)>::empty());
                return q;
            }
            let e2 = match float_end_exec(s, e1 + 1) {
                Some(e) => e,
                None => {
                    assert(args_view(out@) =~= args_view(out@) + Seq::<(nat, nat)>::empty());
                    return q;
                },
            };
            out.push((q, e1));
            out.push((e1 + 1, e2));
            assert(args_view(out@) =~= before + seq![(q as nat, e1 as nat), (e1 as nat + 1, e2 as nat)]);
            pos = e2;
        } else {
            let e = match float_end_exec(s, q) {
                Some(e) => e,
                None => {
                    assert(args_view(out@) =~= args_view(out@) + Seq::<(nat, nat)>::empty());
                    return q;
                },
            };
            out.push((q, e));
            assert(args_view(out@) =~= before + seq![(q as nat, e as nat)]);
            pos = e;
        }
    }
}

/// Reads path data into its segments; nothing when a command letter is not
/// one of `MmLlHhVvZz`.
pub fn parse_path_segments(input: &str) -> (r: Option<Vec<PathSegment>>)
    ensures
        match r {
            Some(v) => segments(input.spec_bytes(), 0) == Some(segments_view(v@)),
            None => segments(input.spec_bytes(), 0) is None,
        },
{
    let s = input.as_bytes();
    let mut out: Vec<PathSegment> = Vec::new();
    let mut pos: usize = 0;
    loop
        invariant
            s@ == input.spec_bytes(),
            pos <= s.len(),
            segments(s@, 0) == match segments(s@, pos as nat) {
                Some(rest) => Some(segments_view(out@) + rest),
                None => None::<Seq<SegmentModel>>,
            },
        decreases s.len() - pos,
    {
        let q = skip_spaces_exec(s, pos);
        if q >= s.len() {
            assert(segments_view(out@) + Seq::<SegmentModel>::empty() =~= segments_view(out@));
            return Some(out);
        }
        let c = s[q];
        let mode = if c == 77 {
            Mode::MoveAbsolute
        } else if c == 109 {
            Mode::MoveRelative
        } else if c == 76 {
            Mode::LineAbsolute
        } else if c == 108 {
            Mode::LineRelative
        } else if c == 72 {
            Mode::HorizontalAbsolute
        } else if c == 104 {
            Mode::HorizontalRelative
        } else if c == 86 {
            Mode::VerticalAbsolute
        } else if c == 118 {
            Mode::VerticalRelative
        } else if c == 90 || c == 122 {
            Mode::ClosePath
        } else {
            return None;
        };
        assert(mode_of(s@[q as int]) == Some(mode));
        let mut args: Vec<(usize, usize)> = Vec::new();
        let r = if mode == Mode::ClosePath {
            q + 1
        } else {
            let pairs = mode == Mode::MoveAbsolute || mode == Mode::MoveRelative || mode
                == Mode::LineAbsolute || mode == Mode::LineRelative;
            let r = read_args_exec(s, q + 1, pairs, &mut args);
            assert(args_view(args@) =~= read_args(s@, q as nat + 1, takes_pairs(mode)).0);
            r
        };
        proof {
            if mode == Mode::ClosePath {
                assert(args_view(args@) =~= Seq::<(nat, nat)>::empty());
            }
        }
        let ghost before = segments_view(out@);
        out.push(PathSegment { mode, args });
        assert(segments_view(out@) =~= before.push(
            SegmentModel { mode, args: args_view(out@.last().args@) },
        ));
        proof {
            match segments(s@, r as nat) {
                Some(rest) => {
                    assert(segments_view(out@) + rest =~= before + (seq![
                        SegmentModel { mode, args: args_view(out@.last().args@) },
                    ] + rest));
                },
                None => {},
            }
        }
        pos = r;
    }
}

/// Law: the command letters of path data. An upper-case letter gives the
/// absolute form of its command and the same letter in lower case the
/// relative form: `M`/`m` move, `L`/`l` draw a line, `H`/`h` a horizontal
/// line, `V`/`v` a vertical line; `Z` and `z` both close the path. No other
/// byte starts a command. Moves and lines take `x,y` pairs; horizontal and
/// vertical lines take single numbers.
pub proof fn law_command_letters(c: u8)
    ensures
        mode_of(0x4Du8) == Some(Mode::MoveAbsolute),
        mode_of(0x6Du8) == Some(Mode::MoveRelative),
        mode_of(0x4Cu8) == Some(Mode::LineAbsolute),
        mode_of(0x6Cu8) == Some(Mode::LineRelative),
        mode_of(0x48u8) == Some(Mode::HorizontalAbsolute),
        mode_of(0x68u8) == Some(Mode::HorizontalRelative),
        mode_of(0x56u8) == Some(Mode::VerticalAbsolute),
        mode_of(0x76u8) == Some(Mode::VerticalRelative),
        mode_of(0x5Au8) == Some(Mode::ClosePath),
        mode_of(0x7Au8) == Some(Mode::ClosePath),
        mode_of(c) is Some <==> (c == 0x4Du8 || c == 0x6Du8 || c == 0x4Cu8 || c == 0x6Cu8 || c
            == 0x48u8 || c == 0x68u8 || c == 0x56u8 || c == 0x76u8 || c == 0x5Au8 || c == 0x7Au8),
        takes_pairs(Mode::MoveAbsolute) && takes_pairs(Mode::MoveRelative),
        takes_pairs(Mode::LineAbsolute) && takes_pairs(Mode::LineRelative),
        !takes_pairs(Mode::HorizontalAbsolute) && !takes_pairs(Mode::HorizontalRelative),
        !takes_pairs(Mode::VerticalAbsolute) && !takes_pairs(Mode::VerticalRelative),
{
}

} // verus!
