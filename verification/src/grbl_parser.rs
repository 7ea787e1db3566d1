//! The grammar of the lines a GRBL controller sends.
//!
//! The pieces follow one convention: a reader takes the input and, when it
//! accepts, returns what is left of the input first and what it read second.
use vstd::prelude::*;
use vstd::string::StringSliceAdditionalSpecFns;
use crate::grbl_messages::{
    new_status, GrblMessage, GrblPosition, GrblState, GrblStatus, MessageModel, PositionModel,
    StatusModel,
};
use crate::number::{
    abs, decimal_prefix, decimal_token, i64_prefix, make_decimal, parse_decimal_prefix,
    parse_decimal_token, parse_i64_prefix, parse_u64_prefix, u64_prefix, Decimal,
};
use crate::text::{
    bytes_equal, find, find_byte, has_prefix, lemma_find_byte_props, lemma_pow10_monotone, pow10,
    starts_with,
};

verus! {

// ---------------------------------------------------------------------------
// Splitting
// ---------------------------------------------------------------------------

/// Everything before the first `sep` (the input must hold one), with the
/// separator itself consumed.
pub open spec fn until_through(s: Seq<u8>, sep: u8) -> Option<(Seq<u8>, Seq<u8>)> {
    match find_byte(s, sep) {
        Some(k) => Some((s.skip(k + 1 as int), s.take(k as int))),
        None => None,
    }
}

/// Everything before the first `sep`, or the whole input when there is none;
/// a separator found is consumed.
pub open spec fn until_through_or_all(s: Seq<u8>, sep: u8) -> (Seq<u8>, Seq<u8>) {
    match find_byte(s, sep) {
        Some(k) => (s.skip(k + 1 as int), s.take(k as int)),
        None => (Seq::empty(), s),
    }
}

/// The text between `open`, which must be the first byte, and the first
/// `close` after it.
pub open spec fn enclosed(s: Seq<u8>, open: u8, close: u8) -> Option<(Seq<u8>, Seq<u8>)> {
    if s.len() > 0 && s[0] == open {
        match find_byte(s.drop_first(), close) {
            Some(k) => Some((s.skip(k + 2 as int), s.subrange(1, k + 1 as int))),
            None => None,
        }
    } else {
        None
    }
}

/// The pieces of `s` between occurrences of `sep`.
pub open spec fn fields(s: Seq<u8>, sep: u8) -> Seq<Seq<u8>>
    decreases s.len(),
{
    match find_byte(s, sep) {
        Some(k) => if k < s.len() {
            seq![s.take(k as int)] + fields(s.skip(k + 1 as int), sep)
        } else {
            seq![s]
        },
        None => seq![s],
    }
}

/// Pieces separated by `sep`: none for empty input; a trailing separator
/// does not open a last, empty piece and is left unread.
pub open spec fn split(s: Seq<u8>, sep: u8) -> (Seq<u8>, Seq<Seq<u8>>) {
    if s.len() == 0 {
        (Seq::empty(), Seq::empty())
    } else if s.last() == sep {
        (seq![sep], fields(s, sep).drop_last())
    } else {
        (Seq::empty(), fields(s, sep))
    }
}

pub open spec fn views_of(v: Seq<&[u8]>) -> Seq<Seq<u8>> {
    v.map_values(|x: &[u8]| x@)
}

/// Reads up to and through the first `sep`.
pub fn take_until_through<'a>(sep: u8, input: &'a [u8]) -> (r: Option<(&'a [u8], &'a [u8])>)
    ensures
        match r {
            Some((rest, head)) => until_through(input@, sep) == Some((rest@, head@)),
            None => until_through(input@, sep) is None,
        },
{
    proof {
        lemma_find_byte_props(input@, sep);
    }
    match find(input, sep) {
        Some(k) => {
            assert(k < input.len());
            let rest = &input[k + 1..input.len()];
            let head = &input[0..k];
            assert(rest@ =~= input@.skip(k + 1));
            assert(head@ =~= input@.take(k as int));
            Some((rest, head))
        },
        None => None,
    }
}

/// Reads up to and through the first `sep`, or all of the input.
pub fn take_until_through_or_all<'a>(sep: u8, input: &'a [u8]) -> (r: (&'a [u8], &'a [u8]))
    ensures
        until_through_or_all(input@, sep) == (r.0@, r.1@),
{
    proof {
        lemma_find_byte_props(input@, sep);
    }
    match find(input, sep) {
        Some(k) => {
            assert(k < input.len());
            let rest = &input[k + 1..input.len()];
            let head = &input[0..k];
            assert(rest@ =~= input@.skip(k + 1));
            assert(head@ =~= input@.take(k as int));
            (rest, head)
        },
        None => {
            let rest = &input[input.len()..input.len()];
            assert(rest@ =~= Seq::<u8>::empty());
            (rest, input)
        },
    }
}

/// Reads the text between `open` and the first `close`.
pub fn enclosed_by<'a>(open: u8, close: u8, input: &'a [u8]) -> (r: Option<(&'a [u8], &'a [u8])>)
    ensures
        match r {
            Some((rest, body)) => enclosed(input@, open, close) == Some((rest@, body@)),
            None => enclosed(input@, open, close) is None,
        },
{
    if input.len() == 0 || input[0] != open {
        return None;
    }
    let tail = &input[1..input.len()];
    assert(tail@ =~= input@.drop_first());
    proof {
        lemma_find_byte_props(tail@, close);
    }
    match find(tail, close) {
        Some(k) => {
            let rest = &input[k + 2..input.len()];
            let body = &input[1..k + 1];
            assert(rest@ =~= input@.skip(k + 2));
            assert(body@ =~= input@.subrange(1, k + 1));
            Some((rest, body))
        },
        None => None,
    }
}

proof fn lemma_fields_unfold(s: Seq<u8>, sep: u8, k: nat)
    requires
        find_byte(s, sep) == Some(k),
    ensures
        k < s.len(),
        fields(s, sep) == seq![s.take(k as int)] + fields(s.skip(k + 1 as int), sep),
{
    lemma_find_byte_props(s, sep);
}

/// Splits the input at every `sep`; see [`split`].
pub fn split_by<'a>(sep: u8, input: &'a [u8]) -> (r: (&'a [u8], Vec<&'a [u8]>))
    ensures
        split(input@, sep) == (r.0@, views_of(r.1@)),
{
    let mut out: Vec<&'a [u8]> = Vec::new();
    let len = input.len();
    if len == 0 {
        let rest = &input[0..0];
        assert(rest@ =~= Seq::<u8>::empty());
        assert(views_of(out@) =~= Seq::<Seq<u8>>::empty());
        return (rest, out);
    }
    let mut start: usize = 0;
    assert(input@.skip(0) =~= input@);
    assert(views_of(out@) + fields(input@, sep) =~= fields(input@, sep));
    loop
        invariant
            len == input.len(),
            start < len,
            views_of(out@) + fields(input@.skip(start as int), sep) == fields(input@, sep),
        decreases len - start,
    {
        let tail = &input[start..len];
        assert(tail@ =~= input@.skip(start as int));
        proof {
            lemma_find_byte_props(tail@, sep);
        }
        match find(tail, sep) {
            Some(k) => {
                proof {
                    lemma_fields_unfold(tail@, sep, k as nat);
                }
                let piece = &input[start..start + k];
                assert(piece@ =~= tail@.take(k as int));
                let ghost before = views_of(out@);
                out.push(piece);
                assert(views_of(out@) =~= before.push(piece@));
                assert(tail@.skip(k + 1) =~= input@.skip(start + k + 1));
                if start + k + 1 == len {
                    let rest = &input[start + k..len];
                    assert(rest@ =~= seq![sep]);
                    assert(input@.skip(start + k + 1) =~= Seq::<u8>::empty());
                    assert(find_byte(Seq::<u8>::empty(), sep) is None);
                    assert(fields(Seq::<u8>::empty(), sep) =~= seq![Seq::<u8>::empty()]);
                    assert(fields(input@, sep) =~= views_of(out@).push(Seq::<u8>::empty()));
                    assert(input@.last() == sep);
                    assert(fields(input@, sep).drop_last() =~= views_of(out@));
                    return (rest, out);
                }
                assert(views_of(out@) + fields(input@.skip(start + k + 1), sep) =~= before + (
                seq![piece@] + fields(input@.skip(start + k + 1), sep)));
                start = start + k + 1;
            },
            None => {
                let piece = &input[start..len];
                assert(piece@ =~= tail@);
                let ghost before = views_of(out@);
                out.push(piece);
                assert(views_of(out@) =~= before.push(piece@));
                assert(fields(tail@, sep) == seq![tail@]);
                assert(fields(input@, sep) =~= views_of(out@));
                assert(input@.last() == tail@[tail@.len() - 1]);
                let rest = &input[len..len];
                assert(rest@ =~= Seq::<u8>::empty());
                return (rest, out);
            },
        }
    }
}

// ---------------------------------------------------------------------------
// Numbers
// ---------------------------------------------------------------------------

/// Reads the decimal at the start of the input.
pub fn parse_f64<'a>(input: &'a [u8]) -> (r: Option<(&'a [u8], Decimal)>)
    ensures
        match r {
            Some((rest, d)) => decimal_prefix(input@) matches Some((e, n)) && d == e && rest@
                == input@.skip(n as int),
            None => decimal_prefix(input@) is None,
        },
        r matches Some((_, d)) ==> abs(d.mantissa as int) < pow10(17) && d.exponent <= 17,
{
    match parse_decimal_prefix(input) {
        Some((d, n)) => {
            let rest = &input[n..input.len()];
            assert(rest@ =~= input@.skip(n as int));
            Some((rest, d))
        },
        None => None,
    }
}

/// The decimals of the pieces of `s` separated by `sep`, when each piece is
/// exactly one number; the first component is what the split left unread.
pub open spec fn split_decimals(s: Seq<u8>, sep: u8) -> Option<(Seq<u8>, Seq<Decimal>)> {
    let (rest, pieces) = split(s, sep);
    if forall|i: int| 0 <= i < pieces.len() ==> (#[trigger] decimal_token(pieces[i])) is Some {
        Some((rest, pieces.map_values(|p: Seq<u8>| decimal_token(p).unwrap())))
    } else {
        None
    }
}

/// A list of decimals separated by `sep` that makes up the whole input.
pub open spec fn decimal_list(s: Seq<u8>, sep: u8) -> Option<Seq<Decimal>> {
    match split_decimals(s, sep) {
        Some((rest, values)) => if rest.len() == 0 {
            Some(values)
        } else {
            None
        },
        None => None,
    }
}

/// Splits at `sep` and reads each piece as one decimal.
pub fn split_by_then<'a>(sep: u8, input: &'a [u8]) -> (r: Option<(&'a [u8], Vec<Decimal>)>)
    ensures
        match r {
            Some((rest, values)) => split_decimals(input@, sep) == Some((rest@, values@)),
            None => split_decimals(input@, sep) is None,
        },
        r matches Some((_, values)) ==> forall|i: int|
            0 <= i < values@.len() ==> abs((#[trigger] values@[i]).mantissa as int) < pow10(17)
                && values@[i].exponent <= 17,
{
    let (rest, pieces) = split_by(sep, input);
    let ghost ps = views_of(pieces@);
    assert(split(input@, sep).1 == ps);
    let mut values: Vec<Decimal> = Vec::new();
    let mut i: usize = 0;
    while i < pieces.len()
        invariant
            ps == views_of(pieces@),
            split(input@, sep) == (rest@, ps),
            i <= pieces.len(),
            values@.len() == i,
            forall|j: int| 0 <= j < i ==> (#[trigger] decimal_token(ps[j])) is Some,
            forall|j: int| 0 <= j < i ==> values@[j] == decimal_token(ps[j]).unwrap(),
            forall|j: int|
                0 <= j < i ==> abs((#[trigger] values@[j]).mantissa as int) < pow10(17)
                    && values@[j].exponent <= 17,
        decreases pieces.len() - i,
    {
        assert(ps[i as int] == pieces@[i as int]@);
        match parse_decimal_token(pieces[i]) {
            Some(d) => {
                values.push(d);
            },
            None => {
                assert(decimal_token(ps[i as int]) is None);
                return None;
            },
        }
        i = i + 1;
    }
    assert(values@ =~= ps.map_values(|p: Seq<u8>| decimal_token(p).unwrap()));
    Some((rest, values))
}

/// Reads a whole input as a list of decimals separated by commas.
fn parse_float_array(input: &[u8]) -> (r: Option<Vec<Decimal>>)
    ensures
        match r {
            Some(v) => decimal_list(input@, 44) == Some(v@),
            None => decimal_list(input@, 44) is None,
        },
        r matches Some(v) ==> forall|i: int|
            0 <= i < v@.len() ==> abs((#[trigger] v@[i]).mantissa as int) < pow10(17)
                && v@[i].exponent <= 17,
{
    match split_by_then(44, input) {
        Some((rest, values)) => if rest.len() == 0 {
            Some(values)
        } else {
            None
        },
        None => None,
    }
}

// ---------------------------------------------------------------------------
// Keywords
// ---------------------------------------------------------------------------

/// The fixed words of the grammar.
#[derive(Clone, Copy)]
pub enum Word {
    Idle,
    Run,
    Hold,
    Jog,
    Alarm,
    Door,
    Check,
    Home,
    Sleep,
    Wco,
    Bf,
    Ln,
    F,
    Fs,
    Pn,
    Ov,
    A,
    MachinePos,
    WorkPos,
    OkReply,
    Error,
    AlarmCode,
    Greeting,
}

pub open spec fn word(w: Word) -> Seq<u8> {
    match w {
        Word::Idle => seq![73u8, 100u8, 108u8, 101u8],
        Word::Run => seq![82u8, 117u8, 110u8],
        Word::Hold => seq![72u8, 111u8, 108u8, 100u8],
        Word::Jog => seq![74u8, 111u8, 103u8],
        Word::Alarm => seq![65u8, 108u8, 97u8, 114u8, 109u8],
        Word::Door => seq![68u8, 111u8, 111u8, 114u8],
        Word::Check => seq![67u8, 104u8, 101u8, 99u8, 107u8],
        Word::Home => seq![72u8, 111u8, 109u8, 101u8],
        Word::Sleep => seq![83u8, 108u8, 101u8, 101u8, 112u8],
        Word::Wco => seq![87u8, 67u8, 79u8],
        Word::Bf => seq![66u8, 102u8],
        Word::Ln => seq![76u8, 110u8],
        Word::F => seq![70u8],
        Word::Fs => seq![70u8, 83u8],
        Word::Pn => seq![80u8, 110u8],
        Word::Ov => seq![79u8, 118u8],
        Word::A => seq![65u8],
        Word::MachinePos => seq![77u8, 80u8, 111u8, 115u8, 58u8],
        Word::WorkPos => seq![87u8, 80u8, 111u8, 115u8, 58u8],
        Word::OkReply => seq![111u8, 107u8],
        Word::Error => seq![101u8, 114u8, 114u8, 111u8, 114u8, 58u8],
        Word::AlarmCode => seq![65u8, 76u8, 65u8, 82u8, 77u8, 58u8],
        Word::Greeting => seq![71u8, 114u8, 98u8, 108u8],
    }
}

fn word_bytes(w: Word) -> (r: Vec<u8>)
    ensures
        r@ == word(w),
{
    let r = match w {
        Word::Idle => vec![73u8, 100u8, 108u8, 101u8],
        Word::Run => vec![82u8, 117u8, 110u8],
        Word::Hold => vec![72u8, 111u8, 108u8, 100u8],
        Word::Jog => vec![74u8, 111u8, 103u8],
        Word::Alarm => vec![65u8, 108u8, 97u8, 114u8, 109u8],
        Word::Door => vec![68u8, 111u8, 111u8, 114u8],
        Word::Check => vec![67u8, 104u8, 101u8, 99u8, 107u8],
        Word::Home => vec![72u8, 111u8, 109u8, 101u8],
        Word::Sleep => vec![83u8, 108u8, 101u8, 101u8, 112u8],
        Word::Wco => vec![87u8, 67u8, 79u8],
        Word::Bf => vec![66u8, 102u8],
        Word::Ln => vec![76u8, 110u8],
        Word::F => vec![70u8],
        Word::Fs => vec![70u8, 83u8],
        Word::Pn => vec![80u8, 110u8],
        Word::Ov => vec![79u8, 118u8],
        Word::A => vec![65u8],
        Word::MachinePos => vec![77u8, 80u8, 111u8, 115u8, 58u8],
        Word::WorkPos => vec![87u8, 80u8, 111u8, 115u8, 58u8],
        Word::OkReply => vec![111u8, 107u8],
        Word::Error => vec![101u8, 114u8, 114u8, 111u8, 114u8, 58u8],
        Word::AlarmCode => vec![65u8, 76u8, 65u8, 82u8, 77u8, 58u8],
        Word::Greeting => vec![71u8, 114u8, 98u8, 108u8],
    };
    assert(r@ =~= word(w));
    r
}

fn is_word(s: &[u8], w: Word) -> (b: bool)
    ensures
        b == (s@ == word(w)),
{
    let t = word_bytes(w);
    bytes_equal(s, t.as_slice())
}

fn starts_with_word(s: &[u8], w: Word) -> (b: bool)
    ensures
        b == starts_with(s@, word(w)),
{
    let t = word_bytes(w);
    has_prefix(s, t.as_slice())
}

// ---------------------------------------------------------------------------
// Machine state
// ---------------------------------------------------------------------------

/// A state word, optionally followed by `:` and, for `Hold` and `Door` (where
/// it is required), an integer code.
pub open spec fn grbl_state(s: Seq<u8>) -> Option<GrblState> {
    let (rest, head) = until_through_or_all(s, 58);
    if head == word(Word::Hold) || head == word(Word::Door) {
        match i64_prefix(rest) {
            Some((v, n)) => if n == rest.len() {
                Some(
                    if head == word(Word::Hold) {
                        GrblState::Hold(v)
                    } else {
                        GrblState::Door(v)
                    },
                )
            } else {
                None
            },
            None => None,
        }
    } else if rest.len() != 0 {
        None
    } else if head == word(Word::Idle) {
        Some(GrblState::Idle)
    } else if head == word(Word::Run) {
        Some(GrblState::Run)
    } else if head == word(Word::Jog) {
        Some(GrblState::Jog)
    } else if head == word(Word::Alarm) {
        Some(GrblState::Alarm)
    } else if head == word(Word::Check) {
        Some(GrblState::Check)
    } else if head == word(Word::Home) {
        Some(GrblState::Home)
    } else if head == word(Word::Sleep) {
        Some(GrblState::Sleep)
    } else {
        None
    }
}

/// Reads a whole input as a machine state.
pub fn parse_grbl_state<'a>(input: &'a [u8]) -> (r: Option<(&'a [u8], GrblState)>)
    ensures
        match r {
            Some((rest, st)) => grbl_state(input@) == Some(st) && rest@.len() == 0,
            None => grbl_state(input@) is None,
        },
{
    let (rest, head) = take_until_through_or_all(58, input);
    let done = &rest[rest.len()..rest.len()];
    assert(done@ =~= Seq::<u8>::empty());
    let hold = is_word(head, Word::Hold);
    if hold || is_word(head, Word::Door) {
        return match parse_i64_prefix(rest) {
            Some((v, n)) => if n == rest.len() {
                if hold {
                    Some((done, GrblState::Hold(v)))
                } else {
                    Some((done, GrblState::Door(v)))
                }
            } else {
                None
            },
            None => None,
        };
    }
    if rest.len() != 0 {
        return None;
    }
    if is_word(head, Word::Idle) {
        Some((done, GrblState::Idle))
    } else if is_word(head, Word::Run) {
        Some((done, GrblState::Run))
    } else if is_word(head, Word::Jog) {
        Some((done, GrblState::Jog))
    } else if is_word(head, Word::Alarm) {
        Some((done, GrblState::Alarm))
    } else if is_word(head, Word::Check) {
        Some((done, GrblState::Check))
    } else if is_word(head, Word::Home) {
        Some((done, GrblState::Home))
    } else if is_word(head, Word::Sleep) {
        Some((done, GrblState::Sleep))
    } else {
        None
    }
}

// ---------------------------------------------------------------------------
// Position
// ---------------------------------------------------------------------------

/// `MPos:` or `WPos:` followed by a comma-separated list of decimals.
pub open spec fn grbl_position(s: Seq<u8>) -> Option<PositionModel> {
    if starts_with(s, word(Word::MachinePos)) {
        match decimal_list(s.skip(5), 44) {
            Some(v) => Some(PositionModel::Machine(v)),
            None => None,
        }
    } else if starts_with(s, word(Word::WorkPos)) {
        match decimal_list(s.skip(5), 44) {
            Some(v) => Some(PositionModel::Work(v)),
            None => None,
        }
    } else {
        None
    }
}

fn parse_grbl_position(input: &[u8]) -> (r: Option<GrblPosition>)
    ensures
        match r {
            Some(p) => grbl_position(input@) == Some(p@),
            None => grbl_position(input@) is None,
        },
{
    let machine = starts_with_word(input, Word::MachinePos);
    if machine || starts_with_word(input, Word::WorkPos) {
        let tail = &input[5..input.len()];
        assert(tail@ =~= input@.skip(5));
        match parse_float_array(tail) {
            Some(v) => if machine {
                Some(GrblPosition::Machine(v))
            } else {
                Some(GrblPosition::Work(v))
            },
            None => None,
        }
    } else {
        None
    }
}

// ---------------------------------------------------------------------------
// Status report fields
// ---------------------------------------------------------------------------

/// One piece of information carried by a status report field.
pub enum GrblStatusPart {
    CurrentFeed(Decimal),
    CurrentSpindle(Decimal),
    Planner(u64),
    RxBytes(u64),
    WorkCoordinateOffset(Vec<Decimal>),
    LineNumber(u64),
    Pins(Vec<u8>),
    FeedOverride(Decimal),
    RapidOverride(Decimal),
    SpindleOverride(Decimal),
    AccessoryState(Vec<u8>),
    Unknown(Vec<u8>),
}

pub enum PartModel {
    CurrentFeed(Decimal),
    CurrentSpindle(Decimal),
    Planner(u64),
    RxBytes(u64),
    WorkCoordinateOffset(Seq<Decimal>),
    LineNumber(u64),
    Pins(Seq<u8>),
    FeedOverride(Decimal),
    RapidOverride(Decimal),
    SpindleOverride(Decimal),
    AccessoryState(Seq<u8>),
    Unknown(Seq<u8>),
}

impl View for GrblStatusPart {
    type V = PartModel;

    open spec fn view(&self) -> PartModel {
        match self {
            GrblStatusPart::CurrentFeed(d) => PartModel::CurrentFeed(*d),
            GrblStatusPart::CurrentSpindle(d) => PartModel::CurrentSpindle(*d),
            GrblStatusPart::Planner(v) => PartModel::Planner(*v),
            GrblStatusPart::RxBytes(v) => PartModel::RxBytes(*v),
            GrblStatusPart::WorkCoordinateOffset(v) => PartModel::WorkCoordinateOffset(v@),
            GrblStatusPart::LineNumber(v) => PartModel::LineNumber(*v),
            GrblStatusPart::Pins(t) => PartModel::Pins(t@),
            GrblStatusPart::FeedOverride(d) => PartModel::FeedOverride(*d),
            GrblStatusPart::RapidOverride(d) => PartModel::RapidOverride(*d),
            GrblStatusPart::SpindleOverride(d) => PartModel::SpindleOverride(*d),
            GrblStatusPart::AccessoryState(t) => PartModel::AccessoryState(t@),
            GrblStatusPart::Unknown(t) => PartModel::Unknown(t@),
        }
    }
}

/// A report with one piece of information recorded.
pub open spec fn apply_part(s: StatusModel, p: PartModel) -> StatusModel {
    match p {
        PartModel::CurrentFeed(d) => StatusModel { current_feed: Some(d), ..s },
        PartModel::CurrentSpindle(d) => StatusModel { current_spindle: Some(d), ..s },
        PartModel::Planner(v) => StatusModel { planner: Some(v), ..s },
        PartModel::RxBytes(v) => StatusModel { rx_bytes: Some(v), ..s },
        PartModel::WorkCoordinateOffset(v) => StatusModel { work_coordinate_offset: Some(v), ..s },
        PartModel::LineNumber(v) => StatusModel { line_number: Some(v), ..s },
        PartModel::Pins(t) => StatusModel { pins: Some(t), ..s },
        PartModel::FeedOverride(d) => StatusModel { feed_override: Some(d), ..s },
        PartModel::RapidOverride(d) => StatusModel { rapid_override: Some(d), ..s },
        PartModel::SpindleOverride(d) => StatusModel { spindle_override: Some(d), ..s },
        PartModel::AccessoryState(t) => StatusModel { accessory_state: Some(t), ..s },
        PartModel::Unknown(t) => StatusModel { unknown_terms: s.unknown_terms.push(t), ..s },
    }
}

/// Records one piece of information in a report.
pub fn apply_grbl_status(mut status: GrblStatus, part: GrblStatusPart) -> (r: GrblStatus)
    ensures
        r@ == apply_part(status@, part@),
{
    let ghost before = status@;
    match part {
        GrblStatusPart::CurrentFeed(feed) => status.current_feed = Some(feed),
        GrblStatusPart::CurrentSpindle(spindle) => status.current_spindle = Some(spindle),
        GrblStatusPart::Planner(planner) => status.planner = Some(planner),
        GrblStatusPart::RxBytes(rx_bytes) => status.rx_bytes = Some(rx_bytes),
        GrblStatusPart::WorkCoordinateOffset(wco) => status.work_coordinate_offset = Some(wco),
        GrblStatusPart::LineNumber(line_number) => status.line_number = Some(line_number),
        GrblStatusPart::Pins(pins) => status.pins = Some(pins),
        GrblStatusPart::FeedOverride(fo) => status.feed_override = Some(fo),
        GrblStatusPart::RapidOverride(ro) => status.rapid_override = Some(ro),
        GrblStatusPart::SpindleOverride(so) => status.spindle_override = Some(so),
        GrblStatusPart::AccessoryState(accessories) => status.accessory_state = Some(
            accessories,
        ),
        GrblStatusPart::Unknown(unknown) => {
            let ghost u = unknown@;
            assert(unknown.deep_view() =~= u);
            status.unknown_terms.push(unknown);
            assert(status.unknown_terms.deep_view() =~= before.unknown_terms.push(u));
        },
    };
    status
}

/// One hundredth of `d`, exactly.
pub open spec fn hundredth_of(d: Decimal) -> Decimal {
    make_decimal(d.mantissa < 0, abs(d.mantissa as int), (d.exponent + 2) as nat)
}

/// Two numbers separated by a comma, each the longest run of number
/// characters; the first component is what follows the second number.
pub open spec fn decimal_pair(s: Seq<u8>) -> Option<(Seq<u8>, Decimal, Decimal)> {
    match decimal_prefix(s) {
        Some((a, n)) => {
            let r = s.skip(n as int);
            if r.len() > 0 && r[0] == 44 {
                match decimal_prefix(r.skip(1)) {
                    Some((b, m)) => Some((r.skip(1).skip(m as int), a, b)),
                    None => None,
                }
            } else {
                None
            }
        },
        None => None,
    }
}

/// Three numbers separated by commas.
pub open spec fn decimal_triple(s: Seq<u8>) -> Option<(Seq<u8>, Decimal, Decimal, Decimal)> {
    match decimal_pair(s) {
        Some((r, a, b)) => if r.len() > 0 && r[0] == 44 {
            match decimal_prefix(r.skip(1)) {
                Some((c, m)) => Some((r.skip(1).skip(m as int), a, b, c)),
                None => None,
            }
        } else {
            None
        },
        None => None,
    }
}

/// Two unsigned integers separated by a comma.
pub open spec fn u64_pair(s: Seq<u8>) -> Option<(Seq<u8>, u64, u64)> {
    match u64_prefix(s) {
        Some((a, n)) => {
            let r = s.skip(n as int);
            if r.len() > 0 && r[0] == 44 {
                match u64_prefix(r.skip(1)) {
                    Some((b, m)) => Some((r.skip(1).skip(m as int), a, b)),
                    None => None,
                }
            } else {
                None
            }
        },
        None => None,
    }
}

/// What a known field reads when its value is followed by `rest`: the
/// pieces when nothing is left over, and failure of the whole report otherwise.
pub open spec fn exactly(rest: Seq<u8>, parts: Seq<PartModel>) -> Option<Seq<PartModel>> {
    if rest.len() == 0 {
        Some(parts)
    } else {
        None
    }
}

/// The pieces of one status field `name:value`. A field whose name is not
/// known, or whose value does not read, is kept whole as unknown; a value
/// that reads but leaves text behind makes the whole report unreadable (no
/// result).
pub open spec fn status_field(t: Seq<u8>) -> Option<Seq<PartModel>> {
    let unknown = Some(seq![PartModel::Unknown(t)]);
    match until_through(t, 58) {
        None => unknown,
        Some((v, head)) => if head == word(Word::Wco) {
            match decimal_list(v, 44) {
                Some(a) => Some(seq![PartModel::WorkCoordinateOffset(a)]),
                None => unknown,
            }
        } else if head == word(Word::Bf) {
            match u64_pair(v) {
                Some((r, a, b)) => exactly(r, seq![PartModel::Planner(a), PartModel::RxBytes(b)]),
                None => unknown,
            }
        } else if head == word(Word::Ln) {
            match u64_prefix(v) {
                Some((a, n)) => exactly(v.skip(n as int), seq![PartModel::LineNumber(a)]),
                None => unknown,
            }
        } else if head == word(Word::F) {
            match decimal_prefix(v) {
                Some((a, n)) => exactly(v.skip(n as int), seq![PartModel::CurrentFeed(a)]),
                None => unknown,
            }
        } else if head == word(Word::Fs) {
            match decimal_pair(v) {
                Some((r, a, b)) => exactly(
                    r,
                    seq![PartModel::CurrentFeed(a), PartModel::CurrentSpindle(b)],
                ),
                None => unknown,
            }
        } else if head == word(Word::Pn) {
            Some(seq![PartModel::Pins(v)])
        } else if head == word(Word::Ov) {
            match decimal_triple(v) {
                Some((r, a, b, c)) => exactly(
                    r,
                    seq![
                        PartModel::FeedOverride(hundredth_of(a)),
                        PartModel::RapidOverride(hundredth_of(b)),
                        PartModel::SpindleOverride(hundredth_of(c)),
                    ],
                ),
                None => unknown,
            }
        } else if head == word(Word::A) {
            Some(seq![PartModel::AccessoryState(v)])
        } else {
            unknown
        }
    }
}

fn to_vec(s: &[u8]) -> (v: Vec<u8>)
    ensures
        v@ == s@,
{
    let mut v: Vec<u8> = Vec::new();
    crate::text::push_all(&mut v, s);
    assert(v@ =~= s@);
    v
}

fn unknown_field(t: &[u8]) -> (r: Option<Vec<GrblStatusPart>>)
    ensures
        r matches Some(v) && v@.len() == 1 && v@[0]@ == PartModel::Unknown(t@),
{
    let mut v: Vec<GrblStatusPart> = Vec::new();
    v.push(GrblStatusPart::Unknown(to_vec(t)));
    Some(v)
}

fn hundredth(d: Decimal) -> (r: Decimal)
    requires
        abs(d.mantissa as int) < pow10(17),
        d.exponent <= 17,
    ensures
        r == hundredth_of(d),
{
    proof {
        lemma_pow10_monotone(17, 38);
    }
    d.hundredth()
}

/// Reads a comma.
fn comma<'a>(s: &'a [u8]) -> (r: Option<&'a [u8]>)
    ensures
        match r {
            Some(rest) => s@.len() > 0 && s@[0] == 44 && rest@ == s@.skip(1),
            None => !(s@.len() > 0 && s@[0] == 44),
        },
{
    if s.len() > 0 && s[0] == 44 {
        let rest = &s[1..s.len()];
        assert(rest@ =~= s@.skip(1));
        Some(rest)
    } else {
        None
    }
}

fn parse_decimal_pair<'a>(s: &'a [u8]) -> (r: Option<(&'a [u8], Decimal, Decimal)>)
    ensures
        match r {
            Some((rest, a, b)) => decimal_pair(s@) == Some((rest@, a, b)) && abs(
                a.mantissa as int,
            ) < pow10(17) && a.exponent <= 17 && abs(b.mantissa as int) < pow10(17)
                && b.exponent <= 17,
            None => decimal_pair(s@) is None,
        },
{
    let (r1, a) = match parse_f64(s) {
        Some(x) => x,
        None => return None,
    };
    let r2 = match comma(r1) {
        Some(x) => x,
        None => return None,
    };
    match parse_f64(r2) {
        Some((r3, b)) => Some((r3, a, b)),
        None => None,
    }
}

/// Reads the pieces of one status field; see [`status_field`].
fn parse_grbl_status_part(t: &[u8]) -> (r: Option<Vec<GrblStatusPart>>)
    ensures
        match r {
            Some(v) => status_field(t@) matches Some(p) && p == v@.map_values(
                |x: GrblStatusPart| x@,
            ),
            None => status_field(t@) is None,
        },
{
    let (v, head) = match take_until_through(58, t) {
        Some(x) => x,
        None => {
            let r = unknown_field(t);
            assert(r.unwrap()@.map_values(|x: GrblStatusPart| x@) =~= seq![PartModel::Unknown(t@)]);
            return r;
        },
    };
    let mut out: Vec<GrblStatusPart> = Vec::new();
    if is_word(head, Word::Wco) {
        match parse_float_array(v) {
            Some(a) => {
                out.push(GrblStatusPart::WorkCoordinateOffset(a));
            },
            None => {
                let r = unknown_field(t);
                assert(r.unwrap()@.map_values(|x: GrblStatusPart| x@) =~= seq![PartModel::Unknown(t@)]);
                return r;
            },
        }
    } else if is_word(head, Word::Bf) {
        let parsed = match parse_u64_prefix(v) {
            Some((a, n)) => {
                let r1 = &v[n..v.len()];
                assert(r1@ =~= v@.skip(n as int));
                match comma(r1) {
                    Some(r2) => match parse_u64_prefix(r2) {
                        Some((b, m)) => {
                            let r3 = &r2[m..r2.len()];
                            assert(r3@ =~= r2@.skip(m as int));
                            Some((r3, a, b))
                        },
                        None => None,
                    },
                    None => None,
                }
            },
            None => None,
        };
        match parsed {
            Some((rest, a, b)) => {
                if rest.len() != 0 {
                    return None;
                }
                out.push(GrblStatusPart::Planner(a));
                out.push(GrblStatusPart::RxBytes(b));
            },
            None => {
                let r = unknown_field(t);
                assert(r.unwrap()@.map_values(|x: GrblStatusPart| x@) =~= seq![PartModel::Unknown(t@)]);
                return r;
            },
        }
    } else if is_word(head, Word::Ln) {
        match parse_u64_prefix(v) {
            Some((a, n)) => {
                if n != v.len() {
                    return None;
                }
                out.push(GrblStatusPart::LineNumber(a));
            },
            None => {
                let r = unknown_field(t);
                assert(r.unwrap()@.map_values(|x: GrblStatusPart| x@) =~= seq![PartModel::Unknown(t@)]);
                return r;
            },
        }
    } else if is_word(head, Word::F) {
        match parse_f64(v) {
            Some((rest, a)) => {
                if rest.len() != 0 {
                    return None;
                }
                out.push(GrblStatusPart::CurrentFeed(a));
            },
            None => {
                let r = unknown_field(t);
                assert(r.unwrap()@.map_values(|x: GrblStatusPart| x@) =~= seq![PartModel::Unknown(t@)]);
                return r;
            },
        }
    } else if is_word(head, Word::Fs) {
        match parse_decimal_pair(v) {
            Some((rest, a, b)) => {
                if rest.len() != 0 {
                    return None;
                }
                out.push(GrblStatusPart::CurrentFeed(a));
                out.push(GrblStatusPart::CurrentSpindle(b));
            },
            None => {
                let r = unknown_field(t);
                assert(r.unwrap()@.map_values(|x: GrblStatusPart| x@) =~= seq![PartModel::Unknown(t@)]);
                return r;
            },
        }
    } else if is_word(head, Word::Pn) {
        out.push(GrblStatusPart::Pins(to_vec(v)));
    } else if is_word(head, Word::Ov) {
        let parsed = match parse_decimal_pair(v) {
            Some((r1, a, b)) => match comma(r1) {
                Some(r2) => match parse_f64(r2) {
                    Some((r3, c)) => Some((r3, a, b, c)),
                    None => None,
                },
                None => None,
            },
            None => None,
        };
        match parsed {
            Some((rest, a, b, c)) => {
                if rest.len() != 0 {
                    return None;
                }
                out.push(GrblStatusPart::FeedOverride(hundredth(a)));
                out.push(GrblStatusPart::RapidOverride(hundredth(b)));
                out.push(GrblStatusPart::SpindleOverride(hundredth(c)));
            },
            None => {
                let r = unknown_field(t);
                assert(r.unwrap()@.map_values(|x: GrblStatusPart| x@) =~= seq![PartModel::Unknown(t@)]);
                return r;
            },
        }
    } else if is_word(head, Word::A) {
        out.push(GrblStatusPart::AccessoryState(to_vec(v)));
    } else {
        let r = unknown_field(t);
        assert(r.unwrap()@.map_values(|x: GrblStatusPart| x@) =~= seq![PartModel::Unknown(t@)]);
        return r;
    }
    proof {
        let p = status_field(t@).unwrap();
        assert(p =~= out@.map_values(|x: GrblStatusPart| x@));
    }
    Some(out)
}

// ---------------------------------------------------------------------------
// Status reports
// ---------------------------------------------------------------------------

pub open spec fn apply_parts(s: StatusModel, ps: Seq<PartModel>) -> StatusModel
    decreases ps.len(),
{
    if ps.len() == 0 {
        s
    } else {
        apply_part(apply_parts(s, ps.drop_last()), ps.last())
    }
}

/// The report after the fields `fs` are recorded in turn, or nothing when
/// one of them makes the report unreadable.
pub open spec fn apply_fields(s: StatusModel, fs: Seq<Seq<u8>>) -> Option<StatusModel>
    decreases fs.len(),
{
    if fs.len() == 0 {
        Some(s)
    } else {
        match apply_fields(s, fs.drop_last()) {
            Some(s1) => match status_field(fs.last()) {
                Some(ps) => Some(apply_parts(s1, ps)),
                None => None,
            },
            None => None,
        }
    }
}

proof fn lemma_apply_fields_none(s: StatusModel, fs: Seq<Seq<u8>>, i: int)
    requires
        0 <= i < fs.len(),
        status_field(fs[i]) is None,
    ensures
        apply_fields(s, fs) is None,
    decreases fs.len(),
{
    if i < fs.len() - 1 {
        lemma_apply_fields_none(s, fs.drop_last(), i);
    }
}

/// `<state|position|field|...>`: the state up to the first `|`, the position
/// up to the next `|` (or the end), then the fields.
pub open spec fn grbl_status(s: Seq<u8>) -> Option<(Seq<u8>, StatusModel)> {
    match enclosed(s, 60, 62) {
        None => None,
        Some((rest, body)) => match until_through(body, 124) {
            None => None,
            Some((b2, head)) => match grbl_state(head) {
                None => None,
                Some(st) => {
                    let (b3, ptext) = until_through_or_all(b2, 124);
                    match grbl_position(ptext) {
                        None => None,
                        Some(pos) => match apply_fields(new_status(st, pos), split(b3, 124).1) {
                            Some(status) => Some((rest, status)),
                            None => None,
                        },
                    }
                },
            },
        },
    }
}

/// Reads a status report at the start of the input.
pub fn parse_grbl_status<'a>(input: &'a [u8]) -> (r: Option<(&'a [u8], GrblStatus)>)
    ensures
        match r {
            Some((rest, status)) => grbl_status(input@) matches Some((rt, st)) && rt == rest@
                && st == status@,
            None => grbl_status(input@) is None,
        },
{
    let (rest, body) = match enclosed_by(60, 62, input) {
        Some(x) => x,
        None => return None,
    };
    let (b2, head) = match take_until_through(124, body) {
        Some(x) => x,
        None => return None,
    };
    let state = match parse_grbl_state(head) {
        Some((_, st)) => st,
        None => return None,
    };
    let (b3, ptext) = take_until_through_or_all(124, b2);
    let position = match parse_grbl_position(ptext) {
        Some(p) => p,
        None => return None,
    };
    let (_, pieces) = split_by(124, b3);
    let ghost fs = views_of(pieces@);
    let ghost start = new_status(state, position@);
    let mut status = GrblStatus::new(state, position);
    assert(split(b3@, 124).1 == fs);
    assert(grbl_status(input@) == match apply_fields(start, fs) {
        Some(st) => Some((rest@, st)),
        None => None,
    });
    let mut i: usize = 0;
    while i < pieces.len()
        invariant
            fs == views_of(pieces@),
            grbl_status(input@) == match apply_fields(start, fs) {
                Some(st) => Some((rest@, st)),
                None => None,
            },
            i <= pieces.len(),
            apply_fields(start, fs.take(i as int)) == Some(status@),
        decreases pieces.len() - i,
    {
        assert(fs[i as int] == pieces@[i as int]@);
        let ghost prefix = status@;
        assert(fs.take(i as int + 1).drop_last() =~= fs.take(i as int));
        assert(fs.take(i as int + 1).last() == fs[i as int]);
        let parts = match parse_grbl_status_part(pieces[i]) {
            Some(p) => p,
            None => {
                proof {
                    lemma_apply_fields_none(start, fs, i as int);
                }
                return None;
            },
        };
        let ghost pm = parts@.map_values(|x: GrblStatusPart| x@);
        let ghost original = parts@;
        let mut parts = parts;
        let ghost mut j: int = 0;
        while parts.len() > 0
            invariant
                pm == original.map_values(|x: GrblStatusPart| x@),
                0 <= j <= original.len(),
                parts@ == original.skip(j as int),
                status@ == apply_parts(prefix, pm.take(j as int)),
            decreases parts.len(),
        {
            let p = parts.remove(0);
            assert(original[j as int] == p);
            assert(pm.take(j as int + 1).drop_last() =~= pm.take(j as int));
            assert(pm.take(j as int + 1).last() == p@);
            status = apply_grbl_status(status, p);
            assert(parts@ =~= original.skip(j as int + 1));
            proof {
                j = j + 1;
            }
        }
        assert(pm.take(j as int) =~= pm);
        i = i + 1;
    }
    assert(fs.take(pieces.len() as int) =~= fs);
    Some((rest, status))
}

// ---------------------------------------------------------------------------
// Lines
// ---------------------------------------------------------------------------

/// What a line from the controller says: a status report; `ok`; `error:` or
/// `ALARM:` with a number (both reported as an error code); a greeting
/// (`Grbl...`); or, failing all of these, the line itself.
pub open spec fn grbl_line(s: Seq<u8>) -> MessageModel {
    match grbl_status(s) {
        Some((_, st)) => MessageModel::StatusEvent(st),
        None => if starts_with(s, word(Word::OkReply)) {
            MessageModel::GrblOk
        } else if starts_with(s, word(Word::Error)) && u64_prefix(s.skip(6)) is Some {
            MessageModel::GrblError(u64_prefix(s.skip(6)).unwrap().0)
        } else if starts_with(s, word(Word::AlarmCode)) && u64_prefix(s.skip(6)) is Some {
            MessageModel::GrblError(u64_prefix(s.skip(6)).unwrap().0)
        } else if starts_with(s, word(Word::Greeting)) {
            MessageModel::GrblGreeting
        } else {
            MessageModel::Unrecognized(s)
        },
    }
}

fn code_after<'a>(s: &'a [u8], w: Word) -> (r: Option<u64>)
    requires
        word(w).len() == 6,
    ensures
        match r {
            Some(v) => starts_with(s@, word(w)) && (u64_prefix(s@.skip(6)) matches Some((x, _))
                && x == v),
            None => !(starts_with(s@, word(w)) && u64_prefix(s@.skip(6)) is Some),
        },
{
    if !starts_with_word(s, w) {
        return None;
    }
    let tail = &s[6..s.len()];
    assert(tail@ =~= s@.skip(6));
    match parse_u64_prefix(tail) {
        Some((v, _)) => Some(v),
        None => None,
    }
}

/// Reads one line received from the controller. Every line reads as
/// something: text that matches nothing else is returned as unrecognized.
pub fn parse_grbl_line(message: &str) -> (m: GrblMessage)
    ensures
        m@ == grbl_line(message.spec_bytes()),
{
    let s = message.as_bytes();
    match parse_grbl_status(s) {
        Some((_, st)) => {
            return GrblMessage::StatusEvent(st);
        },
        None => {},
    }
    if starts_with_word(s, Word::OkReply) {
        return GrblMessage::GrblOk;
    }
    match code_after(s, Word::Error) {
        Some(v) => {
            return GrblMessage::GrblError(v);
        },
        None => {},
    }
    match code_after(s, Word::AlarmCode) {
        Some(v) => {
            return GrblMessage::GrblError(v);
        },
        None => {},
    }
    if starts_with_word(s, Word::Greeting) {
        return GrblMessage::GrblGreeting;
    }
    GrblMessage::Unrecognized(to_vec(s))
}

/// Whether the line is the controller's greeting (what it sends after a reset).
pub fn is_greeting(line: &str) -> (b: bool)
    ensures
        b == (grbl_line(line.spec_bytes()) is GrblGreeting),
{
    match parse_grbl_line(line) {
        GrblMessage::GrblGreeting => true,
        _ => false,
    }
}

/// Two texts that differ at some place are different.
proof fn lemma_differ_at(a: Seq<u8>, b: Seq<u8>, i: int)
    requires
        0 <= i < a.len(),
        i < b.len(),
        a[i] != b[i],
    ensures
        a != b,
{
}

/// A state name without a `:` reads as the state of that name.
proof fn lemma_plain_state(t: Seq<u8>)
    requires
        forall|j: int| 0 <= j < t.len() ==> #[trigger] t[j] != 58u8,
    ensures
        until_through_or_all(t, 58u8) == (Seq::<u8>::empty(), t),
{
    crate::text::lemma_find_byte_absent(t, 58u8);
}

/// `Hold:` or `Door:` followed by one digit.
proof fn lemma_sub_state(name: Seq<u8>, d: u8)
    requires
        name.len() == 4,
        forall|j: int| 0 <= j < 4 ==> #[trigger] name[j] != 58u8,
        48 <= d <= 57,
    ensures
        until_through_or_all(name + seq![58u8, d], 58u8) == (seq![d], name),
        i64_prefix(seq![d]) == Some(((d - 48) as i64, 1nat)),
{
    let s = name + seq![58u8, d];
    assert forall|j: int| 0 <= j < 4 implies #[trigger] s[j] != 58u8 by {
        assert(s[j] == name[j]);
    }
    crate::text::lemma_find_byte_found(s, 58u8, 4);
    assert(s.take(4) =~= name);
    assert(s.skip(5) =~= seq![d]);
    crate::text::lemma_run_len(seq![d], crate::text::integer_class(), 1);
    assert(seq![d].take(1) =~= seq![d]);
    assert(seq![d].drop_last() =~= Seq::<u8>::empty());
    assert(crate::text::digits_value(seq![d].drop_last()) == 0);
    assert(seq![d].last() == d);
    assert(crate::text::digits_value(seq![d]) == (d - 48) as nat);
}

/// Law: each state GRBL reports reads as the state of the same name:
/// `Idle`, `Run`, `Jog`, `Alarm`, `Check`, `Home` and `Sleep` as themselves,
/// and `Hold:n` and `Door:n` as the hold and door states with sub-state `n`.
pub proof fn law_state_names(d: u8)
    requires
        48 <= d <= 57,
    ensures
        grbl_state(seq![0x49u8, 0x64u8, 0x6Cu8, 0x65u8]) == Some(GrblState::Idle),
        grbl_state(seq![0x52u8, 0x75u8, 0x6Eu8]) == Some(GrblState::Run),
        grbl_state(seq![0x4Au8, 0x6Fu8, 0x67u8]) == Some(GrblState::Jog),
        grbl_state(seq![0x41u8, 0x6Cu8, 0x61u8, 0x72u8, 0x6Du8]) == Some(GrblState::Alarm),
        grbl_state(seq![0x43u8, 0x68u8, 0x65u8, 0x63u8, 0x6Bu8]) == Some(GrblState::Check),
        grbl_state(seq![0x48u8, 0x6Fu8, 0x6Du8, 0x65u8]) == Some(GrblState::Home),
        grbl_state(seq![0x53u8, 0x6Cu8, 0x65u8, 0x65u8, 0x70u8]) == Some(GrblState::Sleep),
        grbl_state(seq![0x48u8, 0x6Fu8, 0x6Cu8, 0x64u8, 0x3Au8, d]) == Some(
            GrblState::Hold((d - 48) as i64),
        ),
        grbl_state(seq![0x44u8, 0x6Fu8, 0x6Fu8, 0x72u8, 0x3Au8, d]) == Some(
            GrblState::Door((d - 48) as i64),
        ),
{
    let hold = word(Word::Hold);
    let door = word(Word::Door);
    let idle = seq![0x49u8, 0x64u8, 0x6Cu8, 0x65u8];
    let run = seq![0x52u8, 0x75u8, 0x6Eu8];
    let jog = seq![0x4Au8, 0x6Fu8, 0x67u8];
    let alarm = seq![0x41u8, 0x6Cu8, 0x61u8, 0x72u8, 0x6Du8];
    let check = seq![0x43u8, 0x68u8, 0x65u8, 0x63u8, 0x6Bu8];
    let home = seq![0x48u8, 0x6Fu8, 0x6Du8, 0x65u8];
    let sleep = seq![0x53u8, 0x6Cu8, 0x65u8, 0x65u8, 0x70u8];
    lemma_plain_state(idle);
    lemma_plain_state(run);
    lemma_plain_state(jog);
    lemma_plain_state(alarm);
    lemma_plain_state(check);
    lemma_plain_state(home);
    lemma_plain_state(sleep);
    assert(idle == word(Word::Idle));
    assert(run == word(Word::Run));
    assert(jog == word(Word::Jog));
    assert(alarm == word(Word::Alarm));
    assert(check == word(Word::Check));
    assert(home == word(Word::Home));
    assert(sleep == word(Word::Sleep));
    // Names that could be confused differ somewhere.
    lemma_differ_at(idle, hold, 0);
    lemma_differ_at(idle, door, 0);
    lemma_differ_at(run, word(Word::Idle), 0);
    lemma_differ_at(jog, word(Word::Run), 0);
    lemma_differ_at(alarm, word(Word::Check), 0);
    lemma_differ_at(check, word(Word::Alarm), 0);
    lemma_differ_at(home, hold, 2);
    lemma_differ_at(home, door, 0);
    lemma_differ_at(home, word(Word::Idle), 0);
    lemma_differ_at(sleep, word(Word::Alarm), 0);
    lemma_differ_at(sleep, word(Word::Check), 0);
    lemma_sub_state(hold, d);
    lemma_sub_state(door, d);
    assert(hold + seq![58u8, d] =~= seq![0x48u8, 0x6Fu8, 0x6Cu8, 0x64u8, 0x3Au8, d]);
    assert(door + seq![58u8, d] =~= seq![0x44u8, 0x6Fu8, 0x6Fu8, 0x72u8, 0x3Au8, d]);
}

/// One digit read as a count.
proof fn lemma_one_digit(d: u8)
    requires
        48 <= d <= 57,
    ensures
        u64_prefix(seq![d]) == Some(((d - 48) as u64, 1nat)),
{
    crate::text::lemma_run_len(seq![d], crate::text::digit_class(), 1);
    assert(seq![d].take(1) =~= seq![d]);
    assert(seq![d].drop_last() =~= Seq::<u8>::empty());
    assert(crate::text::digits_value(seq![d].drop_last()) == 0);
    assert(seq![d].last() == d);
}

/// Law: the controller's replies read as what they say: a line starting
/// with `ok` acknowledges a line, `error:n` reports error `n`, `ALARM:n`
/// is reported as error `n` too (as the server has always read alarms), and
/// a line starting with `Grbl` is the greeting after a reset.
pub proof fn law_reply_lines(rest: Seq<u8>, d: u8)
    requires
        48 <= d <= 57,
    ensures
        grbl_line(seq![0x6Fu8, 0x6Bu8] + rest) == MessageModel::GrblOk,
        grbl_line(seq![0x65u8, 0x72u8, 0x72u8, 0x6Fu8, 0x72u8, 0x3Au8, d])
            == MessageModel::GrblError((d - 48) as u64),
        grbl_line(seq![0x41u8, 0x4Cu8, 0x41u8, 0x52u8, 0x4Du8, 0x3Au8, d])
            == MessageModel::GrblError((d - 48) as u64),
        grbl_line(seq![0x47u8, 0x72u8, 0x62u8, 0x6Cu8] + rest) == MessageModel::GrblGreeting,
{
    let ok = seq![0x6Fu8, 0x6Bu8] + rest;
    let err = seq![0x65u8, 0x72u8, 0x72u8, 0x6Fu8, 0x72u8, 0x3Au8, d];
    let alarm = seq![0x41u8, 0x4Cu8, 0x41u8, 0x52u8, 0x4Du8, 0x3Au8, d];
    let greet = seq![0x47u8, 0x72u8, 0x62u8, 0x6Cu8] + rest;
    // None of them is a status report, which starts with `<`.
    assert(ok[0] != 60u8 && err[0] != 60u8 && alarm[0] != 60u8 && greet[0] != 60u8);
    // `ok`.
    assert(ok.take(2) =~= word(Word::OkReply));
    // `error:d`.
    lemma_differ_at(err.take(2), word(Word::OkReply), 0);
    assert(err.take(6) =~= word(Word::Error));
    assert(err.skip(6) =~= seq![d]);
    lemma_one_digit(d);
    // `ALARM:d`.
    lemma_differ_at(alarm.take(2), word(Word::OkReply), 0);
    lemma_differ_at(alarm.take(6), word(Word::Error), 0);
    assert(alarm.take(6) =~= word(Word::AlarmCode));
    assert(alarm.skip(6) =~= seq![d]);
    // `Grbl`.
    lemma_differ_at(greet.take(2), word(Word::OkReply), 0);
    if greet.len() >= 6 {
        lemma_differ_at(greet.take(6), word(Word::Error), 0);
        lemma_differ_at(greet.take(6), word(Word::AlarmCode), 0);
    }
    assert(greet.take(4) =~= word(Word::Greeting));
}

/// Law: a position given as `MPos:` is in machine coordinates and one given
/// as `WPos:` in work coordinates, with the same list of numbers after it.
pub proof fn law_position_kinds(t: Seq<u8>)
    ensures
        grbl_position(seq![0x4Du8, 0x50u8, 0x6Fu8, 0x73u8, 0x3Au8] + t) == match decimal_list(
            t,
            44,
        ) {
            Some(v) => Some(PositionModel::Machine(v)),
            None => None,
        },
        grbl_position(seq![0x57u8, 0x50u8, 0x6Fu8, 0x73u8, 0x3Au8] + t) == match decimal_list(
            t,
            44,
        ) {
            Some(v) => Some(PositionModel::Work(v)),
            None => None,
        },
{
    let m = seq![0x4Du8, 0x50u8, 0x6Fu8, 0x73u8, 0x3Au8] + t;
    let w = seq![0x57u8, 0x50u8, 0x6Fu8, 0x73u8, 0x3Au8] + t;
    assert(m.take(5) =~= word(Word::MachinePos));
    assert(m.skip(5) =~= t);
    assert(w.take(5) =~= word(Word::WorkPos));
    assert(w.skip(5) =~= t);
    lemma_differ_at(w.take(5), word(Word::MachinePos), 0);
}

/// A field `name:value` splits at its first `:`.
proof fn lemma_field_split(name: Seq<u8>, t: Seq<u8>)
    requires
        forall|j: int| 0 <= j < name.len() ==> #[trigger] name[j] != 58u8,
    ensures
        until_through(name + seq![58u8] + t, 58u8) == Some((t, name)),
{
    let s = name + seq![58u8] + t;
    assert forall|j: int| 0 <= j < name.len() implies #[trigger] s[j] != 58u8 by {
        assert(s[j] == name[j]);
    }
    assert(s[name.len() as int] == 58u8);
    crate::text::lemma_find_byte_found(s, 58u8, name.len() as int);
    assert(s.take(name.len() as int) =~= name);
    assert(s.skip(name.len() + 1 as int) =~= t);
}

/// Law: the fields of a status report say what their names say. `WCO:` gives
/// the work coordinate offset, `Bf:` the free planner blocks and receive
/// bytes, `Ln:` the line number, `F:` the feed, `FS:` the feed and then the
/// spindle speed, `Pn:` the input pins, and `Ov:` the feed, rapid and
/// spindle overrides, in that order and as fractions of one hundred.
pub proof fn law_status_fields(t: Seq<u8>)
    ensures
        decimal_list(t, 44) matches Some(v) ==> status_field(
            seq![0x57u8, 0x43u8, 0x4Fu8, 0x3Au8] + t,
        ) == Some(seq![PartModel::WorkCoordinateOffset(v)]),
        u64_pair(t) matches Some((r, n, m)) ==> (r.len() == 0 ==> status_field(
            seq![0x42u8, 0x66u8, 0x3Au8] + t,
        ) == Some(seq![PartModel::Planner(n), PartModel::RxBytes(m)])),
        u64_prefix(t) matches Some((n, k)) ==> (k == t.len() ==> status_field(
            seq![0x4Cu8, 0x6Eu8, 0x3Au8] + t,
        ) == Some(seq![PartModel::LineNumber(n)])),
        decimal_prefix(t) matches Some((a, k)) ==> (k == t.len() ==> status_field(
            seq![0x46u8, 0x3Au8] + t,
        ) == Some(seq![PartModel::CurrentFeed(a)])),
        decimal_pair(t) matches Some((r, a, b)) ==> (r.len() == 0 ==> status_field(
            seq![0x46u8, 0x53u8, 0x3Au8] + t,
        ) == Some(seq![PartModel::CurrentFeed(a), PartModel::CurrentSpindle(b)])),
        status_field(seq![0x50u8, 0x6Eu8, 0x3Au8] + t) == Some(seq![PartModel::Pins(t)]),
        decimal_triple(t) matches Some((r, a, b, c)) ==> (r.len() == 0 ==> status_field(
            seq![0x4Fu8, 0x76u8, 0x3Au8] + t,
        ) == Some(
            seq![
                PartModel::FeedOverride(hundredth_of(a)),
                PartModel::RapidOverride(hundredth_of(b)),
                PartModel::SpindleOverride(hundredth_of(c)),
            ],
        )),
{
    lemma_field_wco(t);
    lemma_field_bf(t);
    lemma_field_ln(t);
    lemma_field_f(t);
    lemma_field_fs(t);
    lemma_field_pn(t);
    lemma_field_ov(t);
}

proof fn lemma_field_wco(t: Seq<u8>)
    ensures
        decimal_list(t, 44) matches Some(v) ==> status_field(
            seq![0x57u8, 0x43u8, 0x4Fu8, 0x3Au8] + t,
        ) == Some(seq![PartModel::WorkCoordinateOffset(v)]),
{
    let name = seq![0x57u8, 0x43u8, 0x4Fu8];
    lemma_field_split(name, t);
    assert(name == word(Word::Wco));
    assert(name + seq![58u8] + t =~= seq![0x57u8, 0x43u8, 0x4Fu8, 0x3Au8] + t);
}

proof fn lemma_field_bf(t: Seq<u8>)
    ensures
        u64_pair(t) matches Some((r, n, m)) ==> (r.len() == 0 ==> status_field(
            seq![0x42u8, 0x66u8, 0x3Au8] + t,
        ) == Some(seq![PartModel::Planner(n), PartModel::RxBytes(m)])),
{
    let name = seq![0x42u8, 0x66u8];
    lemma_field_split(name, t);
    assert(name == word(Word::Bf));
    assert(name.len() != word(Word::Wco).len());
    assert(name + seq![58u8] + t =~= seq![0x42u8, 0x66u8, 0x3Au8] + t);
}

proof fn lemma_field_ln(t: Seq<u8>)
    ensures
        u64_prefix(t) matches Some((n, k)) ==> (k == t.len() ==> status_field(
            seq![0x4Cu8, 0x6Eu8, 0x3Au8] + t,
        ) == Some(seq![PartModel::LineNumber(n)])),
{
    let name = seq![0x4Cu8, 0x6Eu8];
    lemma_field_split(name, t);
    assert(name == word(Word::Ln));
    assert(name.len() != word(Word::Wco).len());
    lemma_differ_at(name, word(Word::Bf), 0);
    assert(name + seq![58u8] + t =~= seq![0x4Cu8, 0x6Eu8, 0x3Au8] + t);
    if let Some((a, k)) = u64_prefix(t) {
        if k == t.len() {
            assert(t.skip(k as int) =~= Seq::<u8>::empty());
        }
    }
}

proof fn lemma_field_f(t: Seq<u8>)
    ensures
        decimal_prefix(t) matches Some((a, k)) ==> (k == t.len() ==> status_field(
            seq![0x46u8, 0x3Au8] + t,
        ) == Some(seq![PartModel::CurrentFeed(a)])),
{
    let name = seq![0x46u8];
    lemma_field_split(name, t);
    assert(name == word(Word::F));
    assert(name.len() != word(Word::Wco).len());
    assert(name.len() != word(Word::Bf).len());
    assert(name.len() != word(Word::Ln).len());
    assert(name + seq![58u8] + t =~= seq![0x46u8, 0x3Au8] + t);
    if let Some((a, k)) = decimal_prefix(t) {
        if k == t.len() {
            assert(t.skip(k as int) =~= Seq::<u8>::empty());
        }
    }
}

proof fn lemma_field_fs(t: Seq<u8>)
    ensures
        decimal_pair(t) matches Some((r, a, b)) ==> (r.len() == 0 ==> status_field(
            seq![0x46u8, 0x53u8, 0x3Au8] + t,
        ) == Some(seq![PartModel::CurrentFeed(a), PartModel::CurrentSpindle(b)])),
{
    let name = seq![0x46u8, 0x53u8];
    lemma_field_split(name, t);
    assert(name == word(Word::Fs));
    assert(name.len() != word(Word::Wco).len());
    lemma_differ_at(name, word(Word::Bf), 0);
    lemma_differ_at(name, word(Word::Ln), 0);
    assert(name.len() != word(Word::F).len());
    assert(name + seq![58u8] + t =~= seq![0x46u8, 0x53u8, 0x3Au8] + t);
}

proof fn lemma_field_pn(t: Seq<u8>)
    ensures
        status_field(seq![0x50u8, 0x6Eu8, 0x3Au8] + t) == Some(seq![PartModel::Pins(t)]),
{
    let name = seq![0x50u8, 0x6Eu8];
    lemma_field_split(name, t);
    assert(name == word(Word::Pn));
    assert(name.len() != word(Word::Wco).len());
    lemma_differ_at(name, word(Word::Bf), 0);
    lemma_differ_at(name, word(Word::Ln), 0);
    assert(name.len() != word(Word::F).len());
    lemma_differ_at(name, word(Word::Fs), 0);
    assert(name + seq![58u8] + t =~= seq![0x50u8, 0x6Eu8, 0x3Au8] + t);
}

proof fn lemma_field_ov(t: Seq<u8>)
    ensures
        decimal_triple(t) matches Some((r, a, b, c)) ==> (r.len() == 0 ==> status_field(
            seq![0x4Fu8, 0x76u8, 0x3Au8] + t,
        ) == Some(
            seq![
                PartModel::FeedOverride(hundredth_of(a)),
                PartModel::RapidOverride(hundredth_of(b)),
                PartModel::SpindleOverride(hundredth_of(c)),
            ],
        )),
{
    let name = seq![0x4Fu8, 0x76u8];
    lemma_field_split(name, t);
    assert(name == word(Word::Ov));
    assert(name.len() != word(Word::Wco).len());
    lemma_differ_at(name, word(Word::Bf), 0);
    lemma_differ_at(name, word(Word::Ln), 0);
    assert(name.len() != word(Word::F).len());
    lemma_differ_at(name, word(Word::Fs), 0);
    lemma_differ_at(name, word(Word::Pn), 0);
    assert(name + seq![58u8] + t =~= seq![0x4Fu8, 0x76u8, 0x3Au8] + t);
}

/// Law: recording a piece of a status report sets the field the piece names
/// to its value (the feed as the feed, the spindle speed as the spindle
/// speed, and so on) and leaves the state and the position alone; unknown
/// pieces are kept, in order.
pub proof fn law_status_parts(
    s: StatusModel,
    p: PartModel,
    d: Decimal,
    n: u64,
    w: Seq<Decimal>,
    t: Seq<u8>,
)
    ensures
        apply_part(s, p).state == s.state,
        apply_part(s, p).machine_position == s.machine_position,
        apply_part(s, PartModel::CurrentFeed(d)).current_feed == Some(d),
        apply_part(s, PartModel::CurrentFeed(d)).current_spindle == s.current_spindle,
        apply_part(s, PartModel::CurrentSpindle(d)).current_spindle == Some(d),
        apply_part(s, PartModel::CurrentSpindle(d)).current_feed == s.current_feed,
        apply_part(s, PartModel::Planner(n)).planner == Some(n),
        apply_part(s, PartModel::Planner(n)).rx_bytes == s.rx_bytes,
        apply_part(s, PartModel::RxBytes(n)).rx_bytes == Some(n),
        apply_part(s, PartModel::RxBytes(n)).planner == s.planner,
        apply_part(s, PartModel::WorkCoordinateOffset(w)).work_coordinate_offset == Some(w),
        apply_part(s, PartModel::LineNumber(n)).line_number == Some(n),
        apply_part(s, PartModel::Pins(t)).pins == Some(t),
        apply_part(s, PartModel::FeedOverride(d)).feed_override == Some(d),
        apply_part(s, PartModel::FeedOverride(d)).rapid_override == s.rapid_override,
        apply_part(s, PartModel::FeedOverride(d)).spindle_override == s.spindle_override,
        apply_part(s, PartModel::RapidOverride(d)).rapid_override == Some(d),
        apply_part(s, PartModel::RapidOverride(d)).feed_override == s.feed_override,
        apply_part(s, PartModel::RapidOverride(d)).spindle_override == s.spindle_override,
        apply_part(s, PartModel::SpindleOverride(d)).spindle_override == Some(d),
        apply_part(s, PartModel::SpindleOverride(d)).feed_override == s.feed_override,
        apply_part(s, PartModel::SpindleOverride(d)).rapid_override == s.rapid_override,
        apply_part(s, PartModel::AccessoryState(t)).accessory_state == Some(t),
        apply_part(s, PartModel::Unknown(t)).unknown_terms == s.unknown_terms.push(t),
{
}

} // verus!
