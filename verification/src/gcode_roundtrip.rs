//! What the line writer writes, the line reader reads back.
use vstd::prelude::*;
use crate::gcode::{
    CommandModel, CoordinateMode, CoordinateSystem, GCodeFormatSpecification, GCodeModal, LineModel,
    MoveMode, Orientation, Plane, ProbeDirection, ProbeRequirement, SpindleMode, Unit,
};
use crate::gcode_display::{
    axes_text, axis_word_text, command_text, letter_text, line_text, modal_text, modals_text,
    probe_word,
};
use crate::gcode_parser::{
    apply_word, empty_partial, finish_line, g_effect, gcode_line, line_loop, m_effect, word_spec,
    Effect, PartialModel, PrimaryCommand, Word,
};
use crate::number::{
    canonical, decimal_prefix_within, decimal_token_within, fixed_text, law_fixed_text_reads_back_within,
    scaled_magnitude,
    truncate_to_u64, Decimal,
};
use crate::text::{
    alpha_class, blank_class, integer_class, is_alpha, is_blank, is_digit, is_number_char,
    lemma_find_byte_absent, lemma_find_byte_found, lemma_nat_text_digits, lemma_nat_text_len,
    lemma_pow10_38,
    lemma_padded_digits, lemma_run_len, nat_text,
    number_class, padded_text, pow10, run_len,
};

verus! {

/// The text of a number is made of number characters.
proof fn lemma_fixed_text_chars(d: Decimal, n: nat)
    ensures
        fixed_text(d, n).len() >= 1,
        forall|i: int| 0 <= i < fixed_text(d, n).len() ==> is_number_char(#[trigger] fixed_text(d, n)[i]),
{
    let r = scaled_magnitude(d, n);
    let q = r / pow10(n);
    lemma_nat_text_digits(q);
    lemma_padded_digits(r, n);
    let t = fixed_text(d, n);
    let sign = if d.mantissa < 0 {
        seq![45u8]
    } else {
        Seq::<u8>::empty()
    };
    let frac = if n == 0 {
        Seq::<u8>::empty()
    } else {
        seq![46u8] + padded_text(r, n)
    };
    assert(t == sign + nat_text(q) + frac);
    assert forall|i: int| 0 <= i < t.len() implies is_number_char(#[trigger] t[i]) by {
        if i < sign.len() {
            assert(t[i] == 45u8);
        } else if i < sign.len() + nat_text(q).len() {
            assert(t[i] == nat_text(q)[i - sign.len()]);
            assert(is_digit(nat_text(q)[i - sign.len()]));
        } else {
            let j = i - sign.len() - nat_text(q).len();
            assert(t[i] == frac[j]);
            if j > 0 {
                assert(frac[j] == padded_text(r, n)[j - 1]);
                assert(is_digit(padded_text(r, n)[j - 1]));
            }
        }
    }
}

/// Blanks in front of a line are skipped: one space more changes nothing.
proof fn lemma_skip_space(a: Seq<u8>, o: Seq<u8>, t: Seq<u8>, st: PartialModel)
    ensures
        line_loop(a, o, seq![32u8] + t, st) == line_loop(a, o, t, st),
{
    let s = seq![32u8] + t;
    assert(s.drop_first() =~= t);
    assert(blank_class()(s[0]));
    assert(run_len(s, blank_class()) == 1 + run_len(t, blank_class()));
    let b = run_len(t, blank_class());
    crate::text::lemma_run_len_props(t, blank_class());
    assert(s.skip(1 + b as int) =~= t.skip(b as int));
}

/// A word of the line is read and applied, and reading goes on after it.
proof fn lemma_read_word(
    a: Seq<u8>,
    o: Seq<u8>,
    w: Seq<u8>,
    rest: Seq<u8>,
    st: PartialModel,
    word: Word,
)
    requires
        w.len() >= 1,
        is_alpha(w[0]),
        word_spec(a, o, w + rest) == Some((word, w.len())),
        !(word matches Word::G(_, true)),
    ensures
        line_loop(a, o, w + rest, st) == match apply_word(word, st) {
            Some(st2) => line_loop(a, o, rest, st2),
            None => None,
        },
{
    let s = w + rest;
    assert(s[0] == w[0]);
    assert(!blank_class()(s[0]));
    assert(run_len(s, blank_class()) == 0);
    assert(s.skip(0) =~= s);
    assert(s.skip(w.len() as int) =~= rest);
}

/// How a letter followed by a number token and then a blank (or the end) is
/// split by the runs the word reader takes.
proof fn lemma_letter_number(c: u8, t: Seq<u8>, rest: Seq<u8>)
    requires
        is_alpha(c),
        t.len() >= 1,
        forall|i: int| 0 <= i < t.len() ==> is_number_char(#[trigger] t[i]),
        rest.len() == 0 || !is_number_char(rest[0]),
    ensures
        run_len(seq![c] + t + rest, alpha_class()) == 1,
        (seq![c] + t + rest).take(1) == seq![c],
        (seq![c] + t + rest).skip(1) == t + rest,
        run_len(t + rest, number_class()) == t.len(),
        (t + rest).take(t.len() as int) == t,
        decimal_prefix_within(t + rest, 38) == match decimal_token_within(t, 38) {
            Some(d) => Some((d, t.len())),
            None => None,
        },
        (forall|i: int| 0 <= i < t.len() ==> is_digit(#[trigger] t[i])) ==> run_len(
            t + rest,
            integer_class(),
        ) == t.len(),
{
    let s = seq![c] + t + rest;
    let u = t + rest;
    assert(s.take(1) =~= seq![c]);
    assert(s.skip(1) =~= u);
    assert(u.take(t.len() as int) =~= t);
    assert(u[0] == t[0]);
    assert(!is_alpha(t[0]));
    lemma_run_len(s, alpha_class(), 1);
    assert forall|j: int| 0 <= j < t.len() implies number_class()(#[trigger] u[j]) by {
        assert(u[j] == t[j]);
    }
    if rest.len() > 0 {
        assert(u[t.len() as int] == rest[0]);
    }
    lemma_run_len(u, number_class(), t.len() as int);
    if forall|i: int| 0 <= i < t.len() ==> is_digit(#[trigger] t[i]) {
        assert forall|j: int| 0 <= j < t.len() implies integer_class()(#[trigger] u[j]) by {
            assert(u[j] == t[j]);
        }
        lemma_run_len(u, integer_class(), t.len() as int);
    }
}

/// Words written one after the other, separated by single spaces.
pub open spec fn joined(ts: Seq<Seq<u8>>) -> Seq<u8>
    decreases ts.len(),
{
    if ts.len() == 0 {
        Seq::empty()
    } else if ts.len() == 1 {
        ts[0]
    } else {
        ts[0] + seq![32u8] + joined(ts.drop_first())
    }
}

proof fn lemma_joined_concat(x: Seq<Seq<u8>>, y: Seq<Seq<u8>>)
    requires
        x.len() >= 1,
        y.len() >= 1,
    ensures
        joined(x + y) == joined(x) + seq![32u8] + joined(y),
    decreases x.len(),
{
    if x.len() == 1 {
        assert((x + y).drop_first() =~= y);
        assert((x + y)[0] == x[0]);
    } else {
        lemma_joined_concat(x.drop_first(), y);
        assert((x + y).drop_first() =~= x.drop_first() + y);
        assert((x + y)[0] == x[0]);
        assert(joined(x + y) =~= x[0] + seq![32u8] + (joined(x.drop_first()) + seq![32u8] + joined(y)));
    }
}

/// The line being read after the words are applied in turn from the front.
pub open spec fn apply_all(words: Seq<Word>, st: PartialModel) -> Option<PartialModel>
    decreases words.len(),
{
    if words.len() == 0 {
        Some(st)
    } else {
        match apply_word(words[0], st) {
            Some(st2) => apply_all(words.drop_first(), st2),
            None => None,
        }
    }
}

proof fn lemma_apply_all_concat(x: Seq<Word>, y: Seq<Word>, st: PartialModel)
    ensures
        apply_all(x + y, st) == match apply_all(x, st) {
            Some(s1) => apply_all(y, s1),
            None => None,
        },
    decreases x.len(),
{
    if x.len() == 0 {
        assert(x + y =~= y);
    } else {
        assert((x + y)[0] == x[0]);
        assert((x + y).drop_first() =~= x.drop_first() + y);
        match apply_word(x[0], st) {
            Some(st2) => lemma_apply_all_concat(x.drop_first(), y, st2),
            None => {},
        }
    }
}

/// Where a word may end: at the end of the line, at a blank, or where the
/// next word's letter begins.
pub open spec fn word_end(rest: Seq<u8>) -> bool {
    rest.len() == 0 || is_blank(rest[0]) || is_alpha(rest[0])
}

/// `text` is read as `word`, whatever follows it where a word may end.
pub open spec fn reads_as(a: Seq<u8>, o: Seq<u8>, text: Seq<u8>, word: Word) -> bool {
    &&& text.len() >= 1
    &&& is_alpha(text[0])
    &&& !(word matches Word::G(_, true))
    &&& forall|rest: Seq<u8>|
        word_end(rest) ==> #[trigger] word_spec(a, o, text + rest) == Some(
            (word, text.len()),
        )
}

/// Words written with single spaces between them (and possibly one space
/// after them) are read as the words, in order.
proof fn lemma_read_words(
    a: Seq<u8>,
    o: Seq<u8>,
    texts: Seq<Seq<u8>>,
    words: Seq<Word>,
    tail: Seq<u8>,
    st: PartialModel,
)
    requires
        texts.len() == words.len(),
        forall|i: int| 0 <= i < texts.len() ==> reads_as(a, o, #[trigger] texts[i], words[i]),
        tail == Seq::<u8>::empty() || tail == seq![32u8],
    ensures
        line_loop(a, o, joined(texts) + tail, st) == apply_all(words, st),
    decreases texts.len(),
{
    if texts.len() == 0 {
        assert(joined(texts) + tail =~= tail);
        if tail.len() > 0 {
            lemma_skip_space(a, o, Seq::<u8>::empty(), st);
            assert(seq![32u8] + Seq::<u8>::empty() =~= tail);
        }
        assert(run_len(Seq::<u8>::empty(), blank_class()) == 0);
        assert(Seq::<u8>::empty().skip(0) =~= Seq::<u8>::empty());
    } else {
        assert(reads_as(a, o, texts[0], words[0]));
        let rest_texts = texts.drop_first();
        let rest_words = words.drop_first();
        assert forall|i: int| 0 <= i < rest_texts.len() implies reads_as(
            a,
            o,
            #[trigger] rest_texts[i],
            rest_words[i],
        ) by {
            assert(rest_texts[i] == texts[i + 1]);
            assert(rest_words[i] == words[i + 1]);
        }
        let after = if texts.len() == 1 {
            tail
        } else {
            seq![32u8] + joined(rest_texts) + tail
        };
        assert(joined(texts) + tail =~= texts[0] + after);
        assert(after.len() == 0 || is_blank(after[0]));
        assert(word_spec(a, o, texts[0] + after) == Some((words[0], texts[0].len())));
        lemma_read_word(a, o, texts[0], after, st, words[0]);
        match apply_word(words[0], st) {
            Some(st2) => {
                if texts.len() == 1 {
                    lemma_read_words(a, o, rest_texts, rest_words, tail, st2);
                    assert(joined(rest_texts) =~= Seq::<u8>::empty());
                    assert(joined(rest_texts) + tail =~= tail);
                } else {
                    lemma_read_words(a, o, rest_texts, rest_words, tail, st2);
                    lemma_skip_space(a, o, joined(rest_texts) + tail, st2);
                    assert(after =~= seq![32u8] + (joined(rest_texts) + tail));
                }
            },
            None => {},
        }
    }
}


/// A `G` or `M` word with a digit run for its number is read as that code.
proof fn lemma_code_reads(a: Seq<u8>, o: Seq<u8>, c: u8, t: Seq<u8>)
    requires
        c == 71u8 || c == 77u8,
        t.len() >= 1,
        forall|i: int| 0 <= i < t.len() ==> is_number_char(#[trigger] t[i]),
        c == 77u8 ==> forall|i: int| 0 <= i < t.len() ==> is_digit(#[trigger] t[i]),
        c == 71u8 ==> t != seq![49u8, 48u8],
    ensures
        reads_as(
            a,
            o,
            seq![c] + t,
            if c == 71u8 {
                Word::G(g_effect(t), false)
            } else {
                Word::M(m_effect(t))
            },
        ),
{
    let text = seq![c] + t;
    let word = if c == 71u8 {
        Word::G(g_effect(t), false)
    } else {
        Word::M(m_effect(t))
    };
    assert(text[0] == c);
    assert forall|rest: Seq<u8>| word_end(rest) implies #[trigger] word_spec(
        a,
        o,
        text + rest,
    ) == Some((word, text.len())) by {
        lemma_letter_number(c, t, rest);
        assert(seq![c] == seq![71u8] ==> c == 71u8) by {
            if seq![c] == seq![71u8] {
                assert(seq![c][0] == seq![71u8][0]);
            }
        }
        assert(seq![c] == seq![77u8] ==> c == 77u8) by {
            if seq![c] == seq![77u8] {
                assert(seq![c][0] == seq![77u8][0]);
            }
        }
    }
}

/// An `F` word is read as its value.
proof fn lemma_f_reads(a: Seq<u8>, o: Seq<u8>, v: Decimal, digits: nat)
    requires
        rereadable_number(v, digits),
    ensures
        reads_as(a, o, seq![70u8] + fixed_text(v, digits), Word::F(v)),
{
    let text = seq![70u8] + fixed_text(v, digits);
    assert(text[0] == 70u8);
    assert forall|rest: Seq<u8>| word_end(rest) implies #[trigger] word_spec(
        a,
        o,
        text + rest,
    ) == Some((Word::F(v), text.len())) by {
        lemma_number_reads(a, o, 70u8, v, digits, rest);
        assert(seq![70u8] != seq![71u8]);
        assert(seq![70u8] != seq![77u8]);
        assert(seq![70u8] != seq![80u8]);
    }
}

/// A two-digit `G` code is read as its code.
proof fn lemma_g2_reads(a: Seq<u8>, o: Seq<u8>, x: u8, y: u8)
    requires
        is_digit(x),
        is_digit(y),
        !(x == 49u8 && y == 48u8),
    ensures
        reads_as(a, o, seq![71u8, x, y], Word::G(g_effect(seq![x, y]), false)),
{
    assert(seq![71u8, x, y] =~= seq![71u8] + seq![x, y]);
    if seq![x, y] == seq![49u8, 48u8] {
        assert(seq![x, y][0] == seq![49u8, 48u8][0]);
        assert(seq![x, y][1] == seq![49u8, 48u8][1]);
    }
    let t = seq![x, y];
    assert forall|i: int| 0 <= i < t.len() implies is_number_char(#[trigger] t[i]) by {}
    lemma_code_reads(a, o, 71u8, t);
}

/// A one-digit `M` code is read as its code.
proof fn lemma_m1_reads(a: Seq<u8>, o: Seq<u8>, x: u8)
    requires
        is_digit(x),
    ensures
        reads_as(a, o, seq![77u8, x], Word::M(m_effect(seq![x]))),
        x != 50u8 ==> seq![x] != seq![50u8],
        x != 51u8 ==> seq![x] != seq![51u8],
{
    assert(seq![x][0] == x);
    assert(seq![77u8, x] =~= seq![77u8] + seq![x]);
    let t = seq![x];
    assert forall|i: int| 0 <= i < t.len() implies is_number_char(#[trigger] t[i]) by {}
    assert forall|i: int| 0 <= i < t.len() implies is_digit(#[trigger] t[i]) by {}
    lemma_code_reads(a, o, 77u8, t);
}

/// The word a modal setting is read as.
pub open spec fn modal_word(m: GCodeModal) -> Word {
    match m {
        GCodeModal::SetFeedrate(v) => Word::F(v),
        GCodeModal::SetSpindle(_) => Word::M(Effect::Modal(m)),
        GCodeModal::EndProgram => Word::M(Effect::Modal(m)),
        _ => Word::G(Effect::Modal(m), false),
    }
}

/// A number written with `digits` digits after the point (none at all when
/// `digits` is zero) reads back as itself: no digit of it is rounded away,
/// and the text holds at most the 38 digits a G-code number may have.
pub open spec fn rereadable_number(d: Decimal, digits: nat) -> bool {
    &&& d.is_canonical()
    &&& d.exponent <= digits
    &&& digits < 38
    &&& scaled_magnitude(d, digits) < pow10(38)
}

/// A modal setting whose text is read back: a spindle speed has no word of
/// its own on input, and a feed rate must be written exactly.
pub open spec fn rereadable_modal(m: GCodeModal, digits: nat) -> bool {
    match m {
        GCodeModal::SetFeedrate(v) => rereadable_number(v, digits),
        GCodeModal::SetSpindleSpeed(_) => false,
        _ => true,
    }
}

proof fn lemma_number_reads(a: Seq<u8>, o: Seq<u8>, c: u8, d: Decimal, digits: nat, rest: Seq<u8>)
    requires
        is_alpha(c),
        rereadable_number(d, digits),
        rest.len() == 0 || !is_number_char(rest[0]),
    ensures
        run_len(seq![c] + fixed_text(d, digits) + rest, alpha_class()) == 1,
        (seq![c] + fixed_text(d, digits) + rest).take(1) == seq![c],
        (seq![c] + fixed_text(d, digits) + rest).skip(1) == fixed_text(d, digits) + rest,
        decimal_prefix_within(fixed_text(d, digits) + rest, 38) == Some(
            (d, fixed_text(d, digits).len()),
        ),
{
    lemma_fixed_text_chars(d, digits);
    law_fixed_text_reads_back_within(d, digits, 38);
    lemma_letter_number(c, fixed_text(d, digits), rest);
}

#[verifier::spinoff_prover]
#[verifier::rlimit(40)]
proof fn lemma_modal_reads(a: Seq<u8>, o: Seq<u8>, m: GCodeModal, digits: nat)
    requires
        rereadable_modal(m, digits),
    ensures
        reads_as(a, o, modal_text(m, digits), modal_word(m)),
{
    match m {
        GCodeModal::SetFeedrate(v) => {
            assert(modal_text(m, digits) == seq![70u8] + fixed_text(v, digits));
            lemma_f_reads(a, o, v, digits);
        },
        GCodeModal::SetSpindleSpeed(_) => {},
        GCodeModal::SetArcPlane(Plane::XY) => {
            assert(modal_text(m, digits) == seq![71u8, 49u8, 55u8]);
            lemma_g2_reads(a, o, 49u8, 55u8);
        },
        GCodeModal::SetArcPlane(Plane::ZX) => {
            assert(modal_text(m, digits) == seq![71u8, 49u8, 56u8]);
            lemma_g2_reads(a, o, 49u8, 56u8);
        },
        GCodeModal::SetArcPlane(Plane::YZ) => {
            assert(modal_text(m, digits) == seq![71u8, 49u8, 57u8]);
            lemma_g2_reads(a, o, 49u8, 57u8);
        },
        GCodeModal::SetUnits(Unit::Inch) => {
            assert(modal_text(m, digits) == seq![71u8, 50u8, 48u8]);
            lemma_g2_reads(a, o, 50u8, 48u8);
        },
        GCodeModal::SetUnits(Unit::Millimeter) => {
            assert(modal_text(m, digits) == seq![71u8, 50u8, 49u8]);
            lemma_g2_reads(a, o, 50u8, 49u8);
        },
        GCodeModal::SetCoordinateSystem(CoordinateSystem::Coord0) => {
            assert(modal_text(m, digits) == seq![71u8, 53u8, 52u8]);
            lemma_g2_reads(a, o, 53u8, 52u8);
        },
        GCodeModal::SetCoordinateSystem(CoordinateSystem::Coord1) => {
            assert(modal_text(m, digits) == seq![71u8, 53u8, 53u8]);
            lemma_g2_reads(a, o, 53u8, 53u8);
        },
        GCodeModal::SetCoordinateSystem(CoordinateSystem::Coord2) => {
            assert(modal_text(m, digits) == seq![71u8, 53u8, 54u8]);
            lemma_g2_reads(a, o, 53u8, 54u8);
        },
        GCodeModal::SetCoordinateSystem(CoordinateSystem::Coord3) => {
            assert(modal_text(m, digits) == seq![71u8, 53u8, 55u8]);
            lemma_g2_reads(a, o, 53u8, 55u8);
        },
        GCodeModal::SetCoordinateSystem(CoordinateSystem::Coord4) => {
            assert(modal_text(m, digits) == seq![71u8, 53u8, 56u8]);
            lemma_g2_reads(a, o, 53u8, 56u8);
        },
        GCodeModal::SetCoordinateSystem(CoordinateSystem::Coord5) => {
            assert(modal_text(m, digits) == seq![71u8, 53u8, 57u8]);
            lemma_g2_reads(a, o, 53u8, 57u8);
        },
        GCodeModal::SetCoordinateMode(CoordinateMode::Absolute) => {
            assert(modal_text(m, digits) == seq![71u8, 57u8, 48u8]);
            lemma_g2_reads(a, o, 57u8, 48u8);
        },
        GCodeModal::SetCoordinateMode(CoordinateMode::Incremental) => {
            assert(modal_text(m, digits) == seq![71u8, 57u8, 49u8]);
            lemma_g2_reads(a, o, 57u8, 49u8);
        },
        GCodeModal::SetSpindle(SpindleMode::Clockwise) => {
            assert(modal_text(m, digits) == seq![77u8, 51u8]);
            lemma_m1_reads(a, o, 51u8);
        },
        GCodeModal::SetSpindle(SpindleMode::Off) => {
            assert(modal_text(m, digits) == seq![77u8, 53u8]);
            lemma_m1_reads(a, o, 53u8);
        },
        GCodeModal::EndProgram => {
            assert(modal_text(m, digits) == seq![77u8, 50u8]);
            lemma_m1_reads(a, o, 50u8);
        },
    }
}


/// Applying a modal setting's word records the setting.
proof fn lemma_modal_apply(m: GCodeModal, st: PartialModel)
    ensures
        apply_word(modal_word(m), st) == Some(PartialModel { modals: st.modals.push(m), ..st }),
{
}

/// Axis letters that are read back as themselves: ASCII letters other than
/// the word letters `F`, `G`, `M` and `P`, none given twice.
pub open spec fn axis_letters_ok(letters: Seq<u8>) -> bool {
    &&& forall|i: int|
        0 <= i < letters.len() ==> {
            let c = #[trigger] letters[i];
            is_alpha(c) && c != 70u8 && c != 71u8 && c != 77u8 && c != 80u8
        }
    &&& forall|i: int, j: int| 0 <= i < j < letters.len() ==> letters[i] != letters[j]
}

proof fn lemma_axis_reads(a: Seq<u8>, o: Seq<u8>, w: (usize, Decimal), digits: nat)
    requires
        axis_letters_ok(a),
        w.0 < a.len(),
        rereadable_number(w.1, digits),
    ensures
        reads_as(a, o, axis_word_text(a, w, digits), Word::AxisWord(w.0, w.1)),
{
    let c = a[w.0 as int];
    let text = axis_word_text(a, w, digits);
    assert(letter_text(c) == seq![c]);
    assert(text == seq![c] + fixed_text(w.1, digits));
    assert(text[0] == c);
    assert forall|j: int| 0 <= j < w.0 implies #[trigger] a[j] != c by {}
    lemma_find_byte_found(a, c, w.0 as int);
    assert forall|rest: Seq<u8>| word_end(rest) implies #[trigger] word_spec(
        a,
        o,
        text + rest,
    ) == Some((Word::AxisWord(w.0, w.1), text.len())) by {
        lemma_number_reads(a, o, c, w.1, digits, rest);
        assert(seq![c] != seq![71u8]) by {
            assert(seq![c][0] != seq![71u8][0]);
        }
        assert(seq![c] != seq![77u8]) by {
            assert(seq![c][0] != seq![77u8][0]);
        }
        assert(seq![c] != seq![80u8]) by {
            assert(seq![c][0] != seq![80u8][0]);
        }
        assert(seq![c] != seq![70u8]) by {
            assert(seq![c][0] != seq![70u8][0]);
        }
        assert(seq![c][0] == c);
    }
}

pub open spec fn modal_texts(ms: Seq<GCodeModal>, digits: nat) -> Seq<Seq<u8>> {
    ms.map_values(|m: GCodeModal| modal_text(m, digits))
}

pub open spec fn modal_words(ms: Seq<GCodeModal>) -> Seq<Word> {
    ms.map_values(|m: GCodeModal| modal_word(m))
}

pub open spec fn axis_texts(letters: Seq<u8>, vs: Seq<(usize, Decimal)>, digits: nat) -> Seq<
    Seq<u8>,
> {
    vs.map_values(|w: (usize, Decimal)| axis_word_text(letters, w, digits))
}

pub open spec fn axis_words(vs: Seq<(usize, Decimal)>) -> Seq<Word> {
    vs.map_values(|w: (usize, Decimal)| Word::AxisWord(w.0, w.1))
}

proof fn lemma_modals_joined(ms: Seq<GCodeModal>, digits: nat)
    ensures
        modals_text(ms, digits) == joined(modal_texts(ms, digits)),
    decreases ms.len(),
{
    let ts = modal_texts(ms, digits);
    if ms.len() == 0 {
    } else if ms.len() == 1 {
        assert(ts[0] == modal_text(ms[0], digits));
    } else {
        let init = ms.drop_last();
        lemma_modals_joined(init, digits);
        let ti = modal_texts(init, digits);
        let tl = seq![modal_text(ms.last(), digits)];
        assert(ts =~= ti + tl);
        lemma_joined_concat(ti, tl);
        assert(joined(tl) == tl[0]);
    }
}

proof fn lemma_axes_joined(letters: Seq<u8>, vs: Seq<(usize, Decimal)>, digits: nat)
    ensures
        axes_text(letters, vs, digits) == joined(axis_texts(letters, vs, digits)),
    decreases vs.len(),
{
    let ts = axis_texts(letters, vs, digits);
    if vs.len() == 0 {
    } else if vs.len() == 1 {
        assert(ts[0] == axis_word_text(letters, vs[0], digits));
    } else {
        let init = vs.drop_last();
        lemma_axes_joined(letters, init, digits);
        let ti = axis_texts(letters, init, digits);
        let tl = seq![axis_word_text(letters, vs.last(), digits)];
        assert(ts =~= ti + tl);
        lemma_joined_concat(ti, tl);
        assert(joined(tl) == tl[0]);
    }
}

proof fn lemma_apply_modals(ms: Seq<GCodeModal>, st: PartialModel)
    ensures
        apply_all(modal_words(ms), st) == Some(PartialModel { modals: st.modals + ms, ..st }),
    decreases ms.len(),
{
    let ws = modal_words(ms);
    if ms.len() == 0 {
        assert(st.modals + ms =~= st.modals);
    } else {
        assert(ws[0] == modal_word(ms[0]));
        lemma_modal_apply(ms[0], st);
        let st2 = PartialModel { modals: st.modals.push(ms[0]), ..st };
        assert(ws.drop_first() =~= modal_words(ms.drop_first()));
        lemma_apply_modals(ms.drop_first(), st2);
        assert(st2.modals + ms.drop_first() =~= st.modals + ms);
    }
}

proof fn lemma_apply_axes(vs: Seq<(usize, Decimal)>, st: PartialModel)
    ensures
        apply_all(axis_words(vs), st) == Some(
            PartialModel { axis_values: st.axis_values + vs, ..st },
        ),
    decreases vs.len(),
{
    let ws = axis_words(vs);
    if vs.len() == 0 {
        assert(st.axis_values + vs =~= st.axis_values);
    } else {
        assert(ws[0] == Word::AxisWord(vs[0].0, vs[0].1));
        let st2 = PartialModel { axis_values: st.axis_values.push(vs[0]), ..st };
        assert(ws.drop_first() =~= axis_words(vs.drop_first()));
        lemma_apply_axes(vs.drop_first(), st2);
        assert(st2.axis_values + vs.drop_first() =~= st.axis_values + vs);
    }
}


/// A `P` word is read as its value.
proof fn lemma_p_reads(a: Seq<u8>, o: Seq<u8>, v: Decimal, digits: nat)
    requires
        rereadable_number(v, digits),
    ensures
        reads_as(a, o, seq![80u8] + fixed_text(v, digits), Word::P(v)),
{
    let text = seq![80u8] + fixed_text(v, digits);
    assert(text[0] == 80u8);
    assert forall|rest: Seq<u8>| word_end(rest) implies #[trigger] word_spec(
        a,
        o,
        text + rest,
    ) == Some((Word::P(v), text.len())) by {
        lemma_number_reads(a, o, 80u8, v, digits, rest);
        assert(seq![80u8] != seq![71u8]);
        assert(seq![80u8] != seq![77u8]);
    }
}

/// Words written with single spaces between them, followed by a blank or
/// by nothing, are read as the words; reading then goes on after them.
proof fn lemma_read_words_then(
    a: Seq<u8>,
    o: Seq<u8>,
    texts: Seq<Seq<u8>>,
    words: Seq<Word>,
    rest: Seq<u8>,
    st: PartialModel,
)
    requires
        texts.len() == words.len(),
        texts.len() >= 1,
        forall|i: int| 0 <= i < texts.len() ==> reads_as(a, o, #[trigger] texts[i], words[i]),
        word_end(rest),
    ensures
        line_loop(a, o, joined(texts) + rest, st) == match apply_all(words, st) {
            Some(st2) => line_loop(a, o, rest, st2),
            None => None,
        },
    decreases texts.len(),
{
    assert(reads_as(a, o, texts[0], words[0]));
    let rest_texts = texts.drop_first();
    let rest_words = words.drop_first();
    let after = if texts.len() == 1 {
        rest
    } else {
        seq![32u8] + joined(rest_texts) + rest
    };
    assert(joined(texts) + rest =~= texts[0] + after);
    assert(word_end(after));
    assert(word_spec(a, o, texts[0] + after) == Some((words[0], texts[0].len())));
    lemma_read_word(a, o, texts[0], after, st, words[0]);
    match apply_word(words[0], st) {
        Some(st2) => {
            if texts.len() == 1 {
                assert(rest_words =~= Seq::<Word>::empty());
            } else {
                assert forall|i: int| 0 <= i < rest_texts.len() implies reads_as(
                    a,
                    o,
                    #[trigger] rest_texts[i],
                    rest_words[i],
                ) by {
                    assert(rest_texts[i] == texts[i + 1]);
                    assert(rest_words[i] == words[i + 1]);
                }
                lemma_read_words_then(a, o, rest_texts, rest_words, rest, st2);
                lemma_skip_space(a, o, joined(rest_texts) + rest, st2);
                assert(after =~= seq![32u8] + (joined(rest_texts) + rest));
            }
        },
        None => {},
    }
}

/// `G10 L20`.
spec fn g10_l20() -> Seq<u8> {
    seq![71u8, 49u8, 48u8, 32u8, 76u8, 50u8, 48u8]
}

/// `G10` followed by a blank and `L20` chooses the work-coordinate command.
proof fn lemma_g10_step(a: Seq<u8>, o: Seq<u8>, more: Seq<u8>, st: PartialModel)
    requires
        st.primary_command is None,
        more.len() == 0 || is_blank(more[0]),
    ensures
        line_loop(a, o, g10_l20() + more, st) == line_loop(
            a,
            o,
            more,
            PartialModel { primary_command: Some(PrimaryCommand::SetWorkCoordinate), ..st },
        ),
{
    let s = g10_l20() + more;
    assert(s[0] == 71u8);
    lemma_run_len(s, blank_class(), 0);
    assert(s.skip(0) =~= s);
    assert(s[1] == 49u8);
    lemma_run_len(s, alpha_class(), 1);
    assert(s.take(1) =~= seq![71u8]);
    let r = s.skip(1);
    assert(r[0] == 49u8 && r[1] == 48u8 && r[2] == 32u8);
    assert forall|j: int| 0 <= j < 2 implies number_class()(#[trigger] r[j]) by {}
    lemma_run_len(r, number_class(), 2);
    assert(r.take(2) =~= seq![49u8, 48u8]);
    assert(seq![71u8] != seq![77u8]);
    assert(word_spec(a, o, s) == Some((Word::G(g_effect(seq![49u8, 48u8]), true), 3nat)));
    let rest = s.skip(3);
    assert(rest[0] == 32u8 && rest[1] == 76u8);
    lemma_run_len(rest, blank_class(), 1);
    let r2 = rest.skip(1);
    assert(r2.take(3) =~= seq![76u8, 50u8, 48u8]);
    assert(r2.skip(3) =~= more);
}

/// A line whose text reads back as the line itself: its axis and offset
/// letters are told apart from the word letters and from each other, every
/// number is written exactly, it sets no spindle speed, and its command, if
/// any, is not a move without a `G` word.
pub open spec fn rereadable_line(spec: GCodeFormatSpecification, line: LineModel) -> bool {
    let digits = spec.float_digits as nat;
    &&& axis_letters_ok(spec.axis_letters@)
    &&& forall|i: int|
        0 <= i < line.modals.len() ==> rereadable_modal(#[trigger] line.modals[i], digits)
    &&& match line.command {
        None => true,
        Some(CommandModel::Move { mode, position }) => mode != MoveMode::Unspecified
            && rereadable_axes(spec.axis_letters@, position, digits),
        Some(CommandModel::ArcMove { position, offsets, revolutions, .. }) => {
            &&& rereadable_axes(spec.axis_letters@, position, digits)
            &&& offset_letters_ok(spec.axis_letters@, spec.offset_axis_letters@)
            &&& rereadable_axes(spec.offset_axis_letters@, offsets, digits)
        },
        Some(CommandModel::Dwell { duration }) => rereadable_number(duration, digits),
        Some(CommandModel::SetWorkCoordinateTo(values)) => rereadable_axes(
            spec.axis_letters@,
            values,
            digits,
        ),
        Some(CommandModel::Probe { position, .. }) => rereadable_axes(
            spec.axis_letters@,
            position,
            digits,
        ),
    }
}

pub open spec fn rereadable_axes(letters: Seq<u8>, vs: Seq<(usize, Decimal)>, digits: nat) -> bool {
    forall|i: int|
        0 <= i < vs.len() ==> (#[trigger] vs[i]).0 < letters.len() && rereadable_number(
            vs[i].1,
            digits,
        )
}

/// The number of a probe's `G38` word.
spec fn probe_code(mode: ProbeDirection, requirement: ProbeRequirement) -> Seq<u8> {
    match (mode, requirement) {
        (ProbeDirection::Towards, ProbeRequirement::Require) => seq![51u8, 56u8, 46u8, 50u8],
        (ProbeDirection::Towards, ProbeRequirement::Optional) => seq![51u8, 56u8, 46u8, 51u8],
        (ProbeDirection::Away, ProbeRequirement::Require) => seq![51u8, 56u8, 46u8, 52u8],
        (ProbeDirection::Away, ProbeRequirement::Optional) => seq![51u8, 56u8, 46u8, 53u8],
    }
}

/// The `G` code of a probe chooses that probe, and is a code the reader
/// takes whole.
proof fn lemma_probe_code(mode: ProbeDirection, requirement: ProbeRequirement)
    ensures
        g_effect(probe_code(mode, requirement)) == Effect::Primary(
            PrimaryCommand::Probe(mode, requirement),
        ),
        probe_code(mode, requirement).len() == 4,
        forall|i: int|
            0 <= i < 4 ==> is_number_char(#[trigger] probe_code(mode, requirement)[i]),
        probe_code(mode, requirement) != seq![49u8, 48u8],
{
    let c = probe_code(mode, requirement);
    let p2 = seq![51u8, 56u8, 46u8, 50u8];
    let p3 = seq![51u8, 56u8, 46u8, 51u8];
    let p4 = seq![51u8, 56u8, 46u8, 52u8];
    assert(c.len() == 4 && c[0] == 51u8 && c[1] == 56u8 && c[2] == 46u8);
    assert(48u8 <= c[3] <= 57u8);
    assert(p2[3] == 50u8 && p3[3] == 51u8 && p4[3] == 52u8);
    if c[3] != 50u8 {
        assert(c != p2);
    }
    if c[3] != 51u8 {
        assert(c != p3);
    }
    if c[3] != 52u8 {
        assert(c != p4);
    }
    assert(c != seq![48u8] && c != seq![49u8] && c != seq![50u8] && c != seq![51u8] && c
        != seq![52u8]);
    assert(c.len() != 2 ==> c != seq![49u8, 48u8]);
}

/// The number of a `G0` or `G1` word.
spec fn move_code(mode: MoveMode) -> Seq<u8> {
    if mode == MoveMode::Rapid {
        seq![48u8]
    } else {
        seq![49u8]
    }
}

proof fn lemma_move_code(mode: MoveMode)
    requires
        mode != MoveMode::Unspecified,
    ensures
        g_effect(move_code(mode)) == Effect::Primary(PrimaryCommand::Move(mode)),
        move_code(mode).len() == 1,
        is_number_char(move_code(mode)[0]),
        move_code(mode) != seq![49u8, 48u8],
{
    if mode == MoveMode::Controlled {
        assert(seq![49u8] != seq![48u8]) by {
            assert(seq![49u8][0] != seq![48u8][0]);
        }
    }
    assert(move_code(mode).len() != seq![49u8, 48u8].len());
}

/// The text of a line whose command is a `G` word followed by a space and
/// axis words, as words: the modal words, the `G` word and the axis words,
/// with a space after the `G` word when no axis follows.
proof fn lemma_simple_line_text(
    spec: GCodeFormatSpecification,
    ms: Seq<GCodeModal>,
    c: CommandModel,
    code: Seq<u8>,
    position: Seq<(usize, Decimal)>,
)
    requires
        command_text(spec, c) == seq![71u8] + code + seq![32u8] + axes_text(
            spec.axis_letters@,
            position,
            spec.float_digits as nat,
        ),
    ensures
        line_text(spec, LineModel { modals: ms, command: Some(c) }) == joined(
            modal_texts(ms, spec.float_digits as nat) + seq![seq![71u8] + code] + axis_texts(
                spec.axis_letters@,
                position,
                spec.float_digits as nat,
            ),
        ) + (if position.len() == 0 {
            seq![32u8]
        } else {
            Seq::<u8>::empty()
        }),
{
    let a = spec.axis_letters@;
    let d = spec.float_digits as nat;
    let line = LineModel { modals: ms, command: Some(c) };
    let tm = modal_texts(ms, d);
    let gt = seq![71u8] + code;
    let tp = axis_texts(a, position, d);
    let tg = tm + seq![gt];
    let texts = tg + tp;
    let tail = if position.len() == 0 {
        seq![32u8]
    } else {
        Seq::<u8>::empty()
    };
    lemma_modals_joined(ms, d);
    lemma_axes_joined(a, position, d);
    let head = if ms.len() == 0 {
        Seq::<u8>::empty()
    } else {
        modals_text(ms, d) + seq![32u8]
    };
    if tm.len() == 0 {
        assert(tg =~= seq![gt]);
        assert(head + gt =~= joined(tg));
    } else {
        lemma_joined_concat(tm, seq![gt]);
        assert(head + gt =~= joined(tg));
    }
    if tp.len() == 0 {
        assert(texts =~= tg);
        assert(line_text(spec, line) =~= joined(texts) + tail);
    } else {
        lemma_joined_concat(tg, tp);
        assert(line_text(spec, line) =~= joined(texts) + tail);
    }
}

/// Reading the words of such a line builds its modals, command word and axes.
proof fn lemma_simple_words_apply(
    ms: Seq<GCodeModal>,
    code: Seq<u8>,
    p: PrimaryCommand,
    position: Seq<(usize, Decimal)>,
)
    requires
        g_effect(code) == Effect::Primary(p),
    ensures
        apply_all(
            modal_words(ms) + seq![Word::G(g_effect(code), false)] + axis_words(position),
            empty_partial(),
        ) == Some(
            PartialModel {
                modals: ms,
                primary_command: Some(p),
                axis_values: position,
                ..empty_partial()
            },
        ),
{
    let ep = empty_partial();
    let wm = modal_words(ms);
    let gw = Word::G(g_effect(code), false);
    let wp = axis_words(position);
    lemma_apply_modals(ms, ep);
    assert(ep.modals + ms =~= ms);
    let st1 = PartialModel { modals: ms, ..ep };
    lemma_apply_all_concat(wm + seq![gw], wp, ep);
    lemma_apply_all_concat(wm, seq![gw], ep);
    let st2 = PartialModel { primary_command: Some(p), ..st1 };
    assert(apply_word(gw, st1) == Some(st2));
    assert(seq![gw].drop_first() =~= Seq::<Word>::empty());
    assert(apply_all(Seq::<Word>::empty(), st2) == Some(st2));
    assert(apply_all(seq![gw], st1) == Some(st2));
    lemma_apply_axes(position, st2);
    assert(st2.axis_values + position =~= position);
}

/// A line whose command is a `G` word and axis words reads back as its
/// modals, that command word and those axes.
proof fn lemma_simple_line_reads(
    spec: GCodeFormatSpecification,
    ms: Seq<GCodeModal>,
    c: CommandModel,
    code: Seq<u8>,
    p: PrimaryCommand,
    position: Seq<(usize, Decimal)>,
)
    requires
        command_text(spec, c) == seq![71u8] + code + seq![32u8] + axes_text(
            spec.axis_letters@,
            position,
            spec.float_digits as nat,
        ),
        g_effect(code) == Effect::Primary(p),
        code.len() >= 1,
        forall|i: int| 0 <= i < code.len() ==> is_number_char(#[trigger] code[i]),
        code != seq![49u8, 48u8],
        axis_letters_ok(spec.axis_letters@),
        forall|i: int|
            0 <= i < ms.len() ==> rereadable_modal(#[trigger] ms[i], spec.float_digits as nat),
        rereadable_axes(spec.axis_letters@, position, spec.float_digits as nat),
    ensures
        line_loop(
            spec.axis_letters@,
            spec.offset_axis_letters@,
            line_text(spec, LineModel { modals: ms, command: Some(c) }),
            empty_partial(),
        ) == Some(
            PartialModel {
                modals: ms,
                primary_command: Some(p),
                axis_values: position,
                ..empty_partial()
            },
        ),
{
    let a = spec.axis_letters@;
    let o = spec.offset_axis_letters@;
    let d = spec.float_digits as nat;
    let tm = modal_texts(ms, d);
    let wm = modal_words(ms);
    let gt = seq![71u8] + code;
    let gw = Word::G(g_effect(code), false);
    let tp = axis_texts(a, position, d);
    let wp = axis_words(position);
    let texts = tm + seq![gt] + tp;
    let words = wm + seq![gw] + wp;
    let tail = if position.len() == 0 {
        seq![32u8]
    } else {
        Seq::<u8>::empty()
    };
    lemma_simple_line_text(spec, ms, c, code, position);
    lemma_code_reads(a, o, 71u8, code);
    assert forall|i: int| 0 <= i < texts.len() implies reads_as(
        a,
        o,
        #[trigger] texts[i],
        words[i],
    ) by {
        if i < tm.len() {
            assert(texts[i] == tm[i]);
            assert(words[i] == wm[i]);
            lemma_modal_reads(a, o, ms[i], d);
        } else if i == tm.len() {
            assert(texts[i] == gt);
            assert(words[i] == gw);
        } else {
            let k = i - tm.len() - 1;
            assert(texts[i] == tp[k]);
            assert(words[i] == wp[k]);
            lemma_axis_reads(a, o, position[k], d);
        }
    }
    lemma_read_words(a, o, texts, words, tail, empty_partial());
    lemma_simple_words_apply(ms, code, p, position);
}

/// Written and read again, a line is the same line: the text that
/// `format_line` writes for `line` is read by `parse_gcode_line` as `line`.
pub proof fn law_line_reads_back(spec: GCodeFormatSpecification, line: LineModel)
    requires
        rereadable_line(spec, line),
    ensures
        gcode_line(spec, line_text(spec, line)) == Some(line),
{
    let a = spec.axis_letters@;
    let o = spec.offset_axis_letters@;
    let d = spec.float_digits as nat;
    let ms = line.modals;
    let ep = empty_partial();
    let tm = modal_texts(ms, d);
    let wm = modal_words(ms);
    assert forall|i: int| 0 <= i < tm.len() implies reads_as(a, o, #[trigger] tm[i], wm[i]) by {
        lemma_modal_reads(a, o, ms[i], d);
    }
    match line.command {
        None => {
            lemma_modals_joined(ms, d);
            assert(line_text(spec, line) =~= joined(tm) + Seq::<u8>::empty());
            lemma_read_words(a, o, tm, wm, Seq::<u8>::empty(), ep);
            lemma_apply_modals(ms, ep);
            assert(ep.modals + ms =~= ms);
        },
        Some(CommandModel::Move { mode, position }) => {
            let c = CommandModel::Move { mode, position };
            lemma_move_code(mode);
            lemma_axes_joined(a, position, d);
            assert(command_text(spec, c) =~= seq![71u8] + move_code(mode) + seq![32u8] + axes_text(
                a,
                position,
                d,
            ));
            lemma_simple_line_reads(spec, ms, c, move_code(mode), PrimaryCommand::Move(mode), position);
        },
        Some(CommandModel::Probe { position, mode, requirement }) => {
            let c = CommandModel::Probe { position, mode, requirement };
            lemma_probe_code(mode, requirement);
            assert(command_text(spec, c) =~= seq![71u8] + probe_code(mode, requirement) + seq![32u8]
                + axes_text(a, position, d));
            lemma_simple_line_reads(
                spec,
                ms,
                c,
                probe_code(mode, requirement),
                PrimaryCommand::Probe(mode, requirement),
                position,
            );
        },
        Some(CommandModel::Dwell { duration }) => {
            lemma_dwell_line_reads_back(spec, ms, duration);
        },
        Some(CommandModel::ArcMove { orientation, position, offsets, revolutions }) => {
            lemma_arc_line_reads_back(spec, ms, orientation, position, offsets, revolutions);
        },
        Some(CommandModel::SetWorkCoordinateTo(values)) => {
            lemma_set_work_line_reads_back(spec, ms, values);
        },
    }
}


/// A line with a dwell reads back.
proof fn lemma_dwell_line_reads_back(
    spec: GCodeFormatSpecification,
    ms: Seq<GCodeModal>,
    duration: Decimal,
)
    requires
        forall|i: int|
            0 <= i < ms.len() ==> rereadable_modal(#[trigger] ms[i], spec.float_digits as nat),
        rereadable_number(duration, spec.float_digits as nat),
    ensures
        gcode_line(
            spec,
            line_text(spec, LineModel { modals: ms, command: Some(CommandModel::Dwell { duration }) }),
        ) == Some(LineModel { modals: ms, command: Some(CommandModel::Dwell { duration }) }),
{
    let a = spec.axis_letters@;
    let o = spec.offset_axis_letters@;
    let d = spec.float_digits as nat;
    let line = LineModel { modals: ms, command: Some(CommandModel::Dwell { duration }) };
    let ep = empty_partial();
    let tm = modal_texts(ms, d);
    let wm = modal_words(ms);
    let gt = seq![71u8] + seq![52u8];
    let gw = Word::G(g_effect(seq![52u8]), false);
    let pt = seq![80u8] + fixed_text(duration, d);
    let pw = Word::P(duration);
    let texts = tm + seq![gt, pt];
    let words = wm + seq![gw, pw];
    // The text.
    lemma_modals_joined(ms, d);
    assert(joined(seq![gt, pt]) =~= gt + seq![32u8] + pt) by {
        assert(seq![gt, pt].drop_first() =~= seq![pt]);
        assert(joined(seq![pt]) == pt);
        assert(seq![gt, pt][0] == gt);
    }
    assert(command_text(spec, CommandModel::Dwell { duration }) =~= joined(seq![gt, pt]));
    if tm.len() == 0 {
        assert(texts =~= seq![gt, pt]);
        assert(line_text(spec, line) =~= joined(texts) + Seq::<u8>::empty());
    } else {
        lemma_joined_concat(tm, seq![gt, pt]);
        assert(line_text(spec, line) =~= joined(texts) + Seq::<u8>::empty());
    }
    // The words.
    lemma_code_reads(a, o, 71u8, seq![52u8]);
    lemma_p_reads(a, o, duration, d);
    assert forall|i: int| 0 <= i < texts.len() implies reads_as(
        a,
        o,
        #[trigger] texts[i],
        words[i],
    ) by {
        if i < tm.len() {
            assert(texts[i] == tm[i]);
            assert(words[i] == wm[i]);
            lemma_modal_reads(a, o, ms[i], d);
        } else if i == tm.len() {
            assert(texts[i] == gt);
            assert(words[i] == gw);
        } else {
            assert(texts[i] == pt);
            assert(words[i] == pw);
        }
    }
    lemma_read_words(a, o, texts, words, Seq::<u8>::empty(), ep);
    // Applying them.
    lemma_apply_all_concat(wm, seq![gw, pw], ep);
    lemma_apply_modals(ms, ep);
    assert(ep.modals + ms =~= ms);
    let st1 = PartialModel { modals: ms, ..ep };
    let st2 = PartialModel { primary_command: Some(PrimaryCommand::Dwell), ..st1 };
    let st3 = PartialModel { p_value: Some(duration), ..st2 };
    assert(g_effect(seq![52u8]) == Effect::Primary(PrimaryCommand::Dwell));
    assert(apply_word(gw, st1) == Some(st2));
    assert(apply_word(pw, st2) == Some(st3));
    assert(seq![gw, pw].drop_first() =~= seq![pw]);
    assert(seq![pw].drop_first() =~= Seq::<Word>::empty());
    assert(apply_all(Seq::<Word>::empty(), st3) == Some(st3));
    assert(apply_all(seq![pw], st2) == Some(st3));
    assert(apply_all(seq![gw, pw], st1) == Some(st3));
}

/// After `G10 L20`, a space and the axis words are read as the values.
proof fn lemma_work_values_read(
    a: Seq<u8>,
    o: Seq<u8>,
    values: Seq<(usize, Decimal)>,
    d: nat,
    st: PartialModel,
)
    requires
        axis_letters_ok(a),
        rereadable_axes(a, values, d),
    ensures
        line_loop(a, o, seq![32u8] + joined(axis_texts(a, values, d)), st) == Some(
            PartialModel { axis_values: st.axis_values + values, ..st },
        ),
{
    let tp = axis_texts(a, values, d);
    let wp = axis_words(values);
    assert forall|i: int| 0 <= i < tp.len() implies reads_as(a, o, #[trigger] tp[i], wp[i]) by {
        lemma_axis_reads(a, o, values[i], d);
    }
    lemma_apply_axes(values, st);
    if values.len() == 0 {
        lemma_read_words(a, o, tp, wp, seq![32u8], st);
        assert(seq![32u8] + joined(tp) =~= joined(tp) + seq![32u8]);
    } else {
        lemma_read_words(a, o, tp, wp, Seq::<u8>::empty(), st);
        lemma_skip_space(a, o, joined(tp), st);
        assert(joined(tp) + Seq::<u8>::empty() =~= joined(tp));
    }
}

/// A line that sets the work coordinates reads back.
proof fn lemma_set_work_line_reads_back(
    spec: GCodeFormatSpecification,
    ms: Seq<GCodeModal>,
    values: Seq<(usize, Decimal)>,
)
    requires
        axis_letters_ok(spec.axis_letters@),
        forall|i: int|
            0 <= i < ms.len() ==> rereadable_modal(#[trigger] ms[i], spec.float_digits as nat),
        rereadable_axes(spec.axis_letters@, values, spec.float_digits as nat),
    ensures
        gcode_line(
            spec,
            line_text(
                spec,
                LineModel { modals: ms, command: Some(CommandModel::SetWorkCoordinateTo(values)) },
            ),
        ) == Some(LineModel { modals: ms, command: Some(CommandModel::SetWorkCoordinateTo(values)) }),
{
    let a = spec.axis_letters@;
    let o = spec.offset_axis_letters@;
    let d = spec.float_digits as nat;
    let line = LineModel { modals: ms, command: Some(CommandModel::SetWorkCoordinateTo(values)) };
    let ep = empty_partial();
    let tm = modal_texts(ms, d);
    let wm = modal_words(ms);
    let tp = axis_texts(a, values, d);
    lemma_modals_joined(ms, d);
    lemma_axes_joined(a, values, d);
    let more = seq![32u8] + joined(tp);
    let cmd = g10_l20() + more;
    assert(command_text(spec, CommandModel::SetWorkCoordinateTo(values)) =~= cmd);
    let st1 = PartialModel { modals: ms, ..ep };
    let st2 = PartialModel { primary_command: Some(PrimaryCommand::SetWorkCoordinate), ..st1 };
    lemma_work_values_read(a, o, values, d, st2);
    assert(st2.axis_values + values =~= values);
    lemma_g10_step(a, o, more, st1);
    lemma_apply_modals(ms, ep);
    assert(ep.modals + ms =~= ms);
    if ms.len() == 0 {
        assert(line_text(spec, line) =~= cmd);
        assert(ep == st1);
    } else {
        assert(line_text(spec, line) =~= joined(tm) + (seq![32u8] + cmd));
        assert forall|i: int| 0 <= i < tm.len() implies reads_as(a, o, #[trigger] tm[i], wm[i]) by {
            lemma_modal_reads(a, o, ms[i], d);
        }
        lemma_read_words_then(a, o, tm, wm, seq![32u8] + cmd, ep);
        lemma_skip_space(a, o, cmd, st1);
    }
}


/// Offset letters that are read back as themselves: letters as for the axes,
/// none of them an axis letter.
pub open spec fn offset_letters_ok(axes: Seq<u8>, offsets: Seq<u8>) -> bool {
    &&& axis_letters_ok(offsets)
    &&& forall|i: int, j: int|
        0 <= i < offsets.len() && 0 <= j < axes.len() ==> offsets[i] != axes[j]
}

proof fn lemma_offset_reads(a: Seq<u8>, o: Seq<u8>, w: (usize, Decimal), digits: nat)
    requires
        offset_letters_ok(a, o),
        w.0 < o.len(),
        rereadable_number(w.1, digits),
    ensures
        reads_as(a, o, axis_word_text(o, w, digits), Word::OffsetAxisWord(w.0, w.1)),
{
    let c = o[w.0 as int];
    let text = axis_word_text(o, w, digits);
    assert(letter_text(c) == seq![c]);
    assert(text == seq![c] + fixed_text(w.1, digits));
    assert(text[0] == c);
    assert forall|j: int| 0 <= j < w.0 implies #[trigger] o[j] != c by {}
    lemma_find_byte_found(o, c, w.0 as int);
    assert forall|j: int| 0 <= j < a.len() implies #[trigger] a[j] != c by {}
    lemma_find_byte_absent(a, c);
    assert forall|rest: Seq<u8>| word_end(rest) implies #[trigger] word_spec(
        a,
        o,
        text + rest,
    ) == Some((Word::OffsetAxisWord(w.0, w.1), text.len())) by {
        lemma_number_reads(a, o, c, w.1, digits, rest);
        assert(seq![c] != seq![71u8]) by {
            assert(seq![c][0] != seq![71u8][0]);
        }
        assert(seq![c] != seq![77u8]) by {
            assert(seq![c][0] != seq![77u8][0]);
        }
        assert(seq![c] != seq![80u8]) by {
            assert(seq![c][0] != seq![80u8][0]);
        }
        assert(seq![c] != seq![70u8]) by {
            assert(seq![c][0] != seq![70u8][0]);
        }
        assert(seq![c][0] == c);
    }
}

/// The number of revolutions of an arc, as the decimal it is read as.
pub open spec fn count_decimal(r: u64) -> Decimal {
    Decimal { mantissa: r as i128, exponent: 0 }
}

proof fn lemma_count_reads(a: Seq<u8>, o: Seq<u8>, r: u64)
    ensures
        reads_as(a, o, seq![80u8] + nat_text(r as nat), Word::P(count_decimal(r))),
        truncate_to_u64(count_decimal(r)) == r,
{
    let t = nat_text(r as nat);
    let text = seq![80u8] + t;
    lemma_nat_text_digits(r as nat);
    lemma_pow10_38();
    lemma_nat_text_len(r as nat, 38);
    assert(is_digit(t[0]));
    assert forall|j: int| 0 <= j < t.len() implies #[trigger] t[j] != 46u8 by {
        assert(is_digit(t[j]));
    }
    lemma_find_byte_absent(t, 46u8);
    assert(t + Seq::<u8>::empty() =~= t);
    assert(canonical(r as nat, 0) == (r as nat, 0nat));
    assert(decimal_token_within(t, 38) == Some(count_decimal(r)));
    assert(pow10(0) == 1);
    assert(text[0] == 80u8);
    assert forall|rest: Seq<u8>| word_end(rest) implies #[trigger] word_spec(
        a,
        o,
        text + rest,
    ) == Some((Word::P(count_decimal(r)), text.len())) by {
        assert forall|i: int| 0 <= i < t.len() implies is_number_char(#[trigger] t[i]) by {
            assert(is_digit(t[i]));
        }
        lemma_letter_number(80u8, t, rest);
        assert(seq![80u8] != seq![71u8]);
        assert(seq![80u8] != seq![77u8]);
    }
}

pub open spec fn offset_words(vs: Seq<(usize, Decimal)>) -> Seq<Word> {
    vs.map_values(|w: (usize, Decimal)| Word::OffsetAxisWord(w.0, w.1))
}

proof fn lemma_apply_offsets(vs: Seq<(usize, Decimal)>, st: PartialModel)
    ensures
        apply_all(offset_words(vs), st) == Some(
            PartialModel { offset_axis_values: st.offset_axis_values + vs, ..st },
        ),
    decreases vs.len(),
{
    let ws = offset_words(vs);
    if vs.len() == 0 {
        assert(st.offset_axis_values + vs =~= st.offset_axis_values);
    } else {
        assert(ws[0] == Word::OffsetAxisWord(vs[0].0, vs[0].1));
        let st2 = PartialModel { offset_axis_values: st.offset_axis_values.push(vs[0]), ..st };
        assert(ws.drop_first() =~= offset_words(vs.drop_first()));
        lemma_apply_offsets(vs.drop_first(), st2);
        assert(st2.offset_axis_values + vs.drop_first() =~= st.offset_axis_values + vs);
    }
}

/// Blank-separated words, and whatever follows them where a word may end:
/// read as the words applied in turn, then the rest.
proof fn lemma_read_segment(
    a: Seq<u8>,
    o: Seq<u8>,
    texts: Seq<Seq<u8>>,
    words: Seq<Word>,
    rest: Seq<u8>,
    st: PartialModel,
    st2: PartialModel,
)
    requires
        texts.len() == words.len(),
        forall|i: int| 0 <= i < texts.len() ==> reads_as(a, o, #[trigger] texts[i], words[i]),
        word_end(rest),
        apply_all(words, st) == Some(st2),
    ensures
        line_loop(a, o, joined(texts) + rest, st) == line_loop(a, o, rest, st2),
{
    if texts.len() == 0 {
        assert(joined(texts) + rest =~= rest);
    } else {
        lemma_read_words_then(a, o, texts, words, rest, st);
    }
}

/// Reading the end of a line gives the line read so far.
proof fn lemma_read_end(a: Seq<u8>, o: Seq<u8>, st: PartialModel)
    ensures
        line_loop(a, o, Seq::<u8>::empty(), st) == Some(st),
{
    lemma_read_words(a, o, Seq::empty(), Seq::empty(), Seq::<u8>::empty(), st);
    assert(joined(Seq::<Seq<u8>>::empty()) + Seq::<u8>::empty() =~= Seq::<u8>::empty());
}

/// The number of a `G2` or `G3` word.
spec fn arc_code(orientation: Orientation) -> Seq<u8> {
    match orientation {
        Orientation::Clockwise => seq![50u8],
        Orientation::Counterclockwise => seq![51u8],
    }
}

/// The text of an arc's revolution count.
spec fn revolutions_text(revolutions: Option<u64>) -> Seq<u8> {
    match revolutions {
        Some(r) => seq![80u8] + nat_text(r as nat),
        None => Seq::empty(),
    }
}

/// The command text of an arc is read as the arc.
#[verifier::spinoff_prover]
#[verifier::rlimit(80)]
proof fn lemma_arc_command_reads(
    spec: GCodeFormatSpecification,
    orientation: Orientation,
    position: Seq<(usize, Decimal)>,
    offsets: Seq<(usize, Decimal)>,
    revolutions: Option<u64>,
    st1: PartialModel,
)
    requires
        st1.primary_command is None,
        st1.p_value is None,
        axis_letters_ok(spec.axis_letters@),
        offset_letters_ok(spec.axis_letters@, spec.offset_axis_letters@),
        rereadable_axes(spec.axis_letters@, position, spec.float_digits as nat),
        rereadable_axes(spec.offset_axis_letters@, offsets, spec.float_digits as nat),
    ensures
        line_loop(
            spec.axis_letters@,
            spec.offset_axis_letters@,
            command_text(
                spec,
                CommandModel::ArcMove { orientation, position, offsets, revolutions },
            ),
            st1,
        ) == Some(
            PartialModel {
                primary_command: Some(PrimaryCommand::ArcMove(orientation)),
                axis_values: st1.axis_values + position,
                offset_axis_values: st1.offset_axis_values + offsets,
                p_value: match revolutions {
                    Some(r) => Some(count_decimal(r)),
                    None => None,
                },
                ..st1
            },
        ),
{
    let a = spec.axis_letters@;
    let o = spec.offset_axis_letters@;
    let d = spec.float_digits as nat;
    let code = arc_code(orientation);
    let gt = seq![71u8] + code;
    let gw = Word::G(g_effect(code), false);
    let tp = axis_texts(a, position, d);
    let wp = axis_words(position);
    let to = axis_texts(o, offsets, d);
    let wo = offset_words(offsets);
    let pt = revolutions_text(revolutions);
    lemma_axes_joined(a, position, d);
    lemma_axes_joined(o, offsets, d);
    let x = joined(tp) + (seq![32u8] + (joined(to) + pt));
    let cmd = gt + (seq![32u8] + x);
    assert(command_text(spec, CommandModel::ArcMove { orientation, position, offsets, revolutions })
        =~= cmd);
    // The `G` word.
    assert(seq![51u8] != seq![50u8]) by {
        assert(seq![51u8][0] != seq![50u8][0]);
    }
    assert(g_effect(code) == Effect::Primary(PrimaryCommand::ArcMove(orientation)));
    lemma_code_reads(a, o, 71u8, code);
    assert(word_spec(a, o, gt + (seq![32u8] + x)) == Some((gw, gt.len())));
    lemma_read_word(a, o, gt, seq![32u8] + x, st1, gw);
    let st2 = PartialModel { primary_command: Some(PrimaryCommand::ArcMove(orientation)), ..st1 };
    lemma_skip_space(a, o, x, st2);
    // The axis words.
    assert forall|i: int| 0 <= i < tp.len() implies reads_as(a, o, #[trigger] tp[i], wp[i]) by {
        lemma_axis_reads(a, o, position[i], d);
    }
    lemma_apply_axes(position, st2);
    let st3 = PartialModel { axis_values: st2.axis_values + position, ..st2 };
    lemma_read_segment(a, o, tp, wp, seq![32u8] + (joined(to) + pt), st2, st3);
    lemma_skip_space(a, o, joined(to) + pt, st3);
    // The offset words.
    assert forall|i: int| 0 <= i < to.len() implies reads_as(a, o, #[trigger] to[i], wo[i]) by {
        lemma_offset_reads(a, o, offsets[i], d);
    }
    lemma_apply_offsets(offsets, st3);
    let st4 = PartialModel { offset_axis_values: st3.offset_axis_values + offsets, ..st3 };
    if pt.len() > 0 {
        assert(pt[0] == 80u8);
    }
    lemma_read_segment(a, o, to, wo, pt, st3, st4);
    // The revolutions.
    match revolutions {
        Some(r) => {
            lemma_count_reads(a, o, r);
            let st5 = PartialModel { p_value: Some(count_decimal(r)), ..st4 };
            assert(pt + Seq::<u8>::empty() =~= pt);
            assert(word_spec(a, o, pt + Seq::<u8>::empty()) == Some((Word::P(count_decimal(r)), pt.len())));
            lemma_read_word(a, o, pt, Seq::<u8>::empty(), st4, Word::P(count_decimal(r)));
            lemma_read_end(a, o, st5);
        },
        None => {
            assert(pt =~= Seq::<u8>::empty());
            lemma_read_end(a, o, st4);
        },
    }
}


/// A line with an arc reads back.
proof fn lemma_arc_line_reads_back(
    spec: GCodeFormatSpecification,
    ms: Seq<GCodeModal>,
    orientation: Orientation,
    position: Seq<(usize, Decimal)>,
    offsets: Seq<(usize, Decimal)>,
    revolutions: Option<u64>,
)
    requires
        forall|i: int|
            0 <= i < ms.len() ==> rereadable_modal(#[trigger] ms[i], spec.float_digits as nat),
        axis_letters_ok(spec.axis_letters@),
        offset_letters_ok(spec.axis_letters@, spec.offset_axis_letters@),
        rereadable_axes(spec.axis_letters@, position, spec.float_digits as nat),
        rereadable_axes(spec.offset_axis_letters@, offsets, spec.float_digits as nat),
    ensures
        ({
            let line = LineModel {
                modals: ms,
                command: Some(CommandModel::ArcMove { orientation, position, offsets, revolutions }),
            };
            gcode_line(spec, line_text(spec, line)) == Some(line)
        }),
{
    let a = spec.axis_letters@;
    let o = spec.offset_axis_letters@;
    let d = spec.float_digits as nat;
    let c = CommandModel::ArcMove { orientation, position, offsets, revolutions };
    let line = LineModel { modals: ms, command: Some(c) };
    let ep = empty_partial();
    let tm = modal_texts(ms, d);
    let wm = modal_words(ms);
    let cmd = command_text(spec, c);
    lemma_modals_joined(ms, d);
    lemma_apply_modals(ms, ep);
    assert(ep.modals + ms =~= ms);
    let st1 = PartialModel { modals: ms, ..ep };
    lemma_arc_command_reads(spec, orientation, position, offsets, revolutions, st1);
    assert(st1.axis_values + position =~= position);
    assert(st1.offset_axis_values + offsets =~= offsets);
    if ms.len() == 0 {
        assert(line_text(spec, line) =~= cmd);
        assert(ep == st1);
    } else {
        assert(line_text(spec, line) =~= joined(tm) + (seq![32u8] + cmd));
        assert forall|i: int| 0 <= i < tm.len() implies reads_as(a, o, #[trigger] tm[i], wm[i]) by {
            lemma_modal_reads(a, o, ms[i], d);
        }
        lemma_read_words_then(a, o, tm, wm, seq![32u8] + cmd, ep);
        lemma_skip_space(a, o, cmd, st1);
    }
    match revolutions {
        Some(r) => {
            lemma_count_reads(a, o, r);
        },
        None => {},
    }
}


/// The letters the server writes with (axes `XYZA`, arc offsets `IJK`, as in
/// `default_settings`) are read back as themselves.
pub proof fn default_letters_read_back()
    ensures
        axis_letters_ok(seq![88u8, 89u8, 90u8, 65u8]),
        offset_letters_ok(seq![88u8, 89u8, 90u8, 65u8], seq![73u8, 74u8, 75u8]),
{
    let a = seq![88u8, 89u8, 90u8, 65u8];
    let o = seq![73u8, 74u8, 75u8];
    assert(a[0] == 88u8 && a[1] == 89u8 && a[2] == 90u8 && a[3] == 65u8);
    assert(o[0] == 73u8 && o[1] == 74u8 && o[2] == 75u8);
}

/// A line holding one modal word reads as that setting.
proof fn lemma_single_modal_line(spec: GCodeFormatSpecification, m: GCodeModal)
    requires
        rereadable_modal(m, spec.float_digits as nat),
    ensures
        gcode_line(spec, modal_text(m, spec.float_digits as nat)) == Some(
            LineModel { modals: seq![m], command: None },
        ),
{
    let a = spec.axis_letters@;
    let o = spec.offset_axis_letters@;
    let d = spec.float_digits as nat;
    let ep = empty_partial();
    let ms = seq![m];
    let texts = modal_texts(ms, d);
    let words = modal_words(ms);
    assert(texts[0] == modal_text(m, d));
    assert(words[0] == modal_word(m));
    lemma_modal_reads(a, o, m, d);
    assert forall|i: int| 0 <= i < texts.len() implies reads_as(a, o, #[trigger] texts[i], words[i]) by {
        assert(i == 0);
    }
    lemma_read_words(a, o, texts, words, Seq::<u8>::empty(), ep);
    assert(joined(texts) == modal_text(m, d));
    assert(modal_text(m, d) + Seq::<u8>::empty() =~= modal_text(m, d));
    lemma_apply_modals(ms, ep);
    assert(ep.modals + ms =~= ms);
}

/// A line holding one `G` word that chooses a command reads as that word.
proof fn lemma_single_code_line(spec: GCodeFormatSpecification, code: Seq<u8>, p: PrimaryCommand)
    requires
        g_effect(code) == Effect::Primary(p),
        code.len() >= 1,
        forall|i: int| 0 <= i < code.len() ==> is_number_char(#[trigger] code[i]),
        code != seq![49u8, 48u8],
    ensures
        line_loop(spec.axis_letters@, spec.offset_axis_letters@, seq![71u8] + code, empty_partial())
            == Some(PartialModel { primary_command: Some(p), ..empty_partial() }),
{
    let a = spec.axis_letters@;
    let o = spec.offset_axis_letters@;
    let ep = empty_partial();
    let gt = seq![71u8] + code;
    let gw = Word::G(g_effect(code), false);
    lemma_code_reads(a, o, 71u8, code);
    let texts = seq![gt];
    let words = seq![gw];
    assert forall|i: int| 0 <= i < texts.len() implies reads_as(a, o, #[trigger] texts[i], words[i]) by {
        assert(i == 0);
    }
    lemma_read_words(a, o, texts, words, Seq::<u8>::empty(), ep);
    assert(joined(texts) == gt);
    assert(gt + Seq::<u8>::empty() =~= gt);
    let st = PartialModel { primary_command: Some(p), ..ep };
    assert(apply_word(gw, ep) == Some(st));
    assert(words.drop_first() =~= Seq::<Word>::empty());
    assert(apply_all(Seq::<Word>::empty(), st) == Some(st));
}

/// The `G54` to `G59` work coordinate systems, in order.
pub open spec fn coordinate_system(i: int) -> CoordinateSystem {
    if i == 0 {
        CoordinateSystem::Coord0
    } else if i == 1 {
        CoordinateSystem::Coord1
    } else if i == 2 {
        CoordinateSystem::Coord2
    } else if i == 3 {
        CoordinateSystem::Coord3
    } else if i == 4 {
        CoordinateSystem::Coord4
    } else {
        CoordinateSystem::Coord5
    }
}

/// Law: `G54` + `i` selects work coordinate system `i` (`Coord0` to `Coord5`),
/// both ways: the line `G5x` is read as that setting, and that setting is
/// written as `G5x`.
pub proof fn law_coordinate_system_words(spec: GCodeFormatSpecification, i: int)
    requires
        0 <= i < 6,
    ensures
        modal_text(
            GCodeModal::SetCoordinateSystem(coordinate_system(i)),
            spec.float_digits as nat,
        ) == seq![0x47u8, 0x35u8, (0x34 + i) as u8],
        gcode_line(spec, seq![0x47u8, 0x35u8, (0x34 + i) as u8]) == Some(
            LineModel {
                modals: seq![GCodeModal::SetCoordinateSystem(coordinate_system(i))],
                command: None,
            },
        ),
{
    lemma_single_modal_line(spec, GCodeModal::SetCoordinateSystem(coordinate_system(i)));
}

/// The line `t` reads as the single setting `m`, which is written as `t`.
#[verifier::opaque]
pub open spec fn modal_word_means(spec: GCodeFormatSpecification, t: Seq<u8>, m: GCodeModal) -> bool {
    &&& modal_text(m, spec.float_digits as nat) == t
    &&& gcode_line(spec, t) == Some(LineModel { modals: seq![m], command: None })
}

proof fn lemma_modal_word_means(spec: GCodeFormatSpecification, t: Seq<u8>, m: GCodeModal)
    requires
        rereadable_modal(m, spec.float_digits as nat),
        modal_text(m, spec.float_digits as nat) == t,
    ensures
        modal_word_means(spec, t, m),
{
    reveal(modal_word_means);
    lemma_single_modal_line(spec, m);
}

/// Law: the other modal words mean what G-code says, both ways (read from
/// the word, written as the word): `G17`/`G18`/`G19` the XY/ZX/YZ arc
/// plane, `G20`/`G21` inches/millimetres, `G90`/`G91` absolute/incremental
/// coordinates, `M2` the end of the program, `M3` the spindle on clockwise,
/// `M5` the spindle off.
pub proof fn law_modal_words(spec: GCodeFormatSpecification)
    ensures
        modal_word_means(spec, seq![0x47u8, 0x31u8, 0x37u8], GCodeModal::SetArcPlane(Plane::XY)),
        modal_word_means(spec, seq![0x47u8, 0x31u8, 0x38u8], GCodeModal::SetArcPlane(Plane::ZX)),
        modal_word_means(spec, seq![0x47u8, 0x31u8, 0x39u8], GCodeModal::SetArcPlane(Plane::YZ)),
        modal_word_means(spec, seq![0x47u8, 0x32u8, 0x30u8], GCodeModal::SetUnits(Unit::Inch)),
        modal_word_means(
            spec,
            seq![0x47u8, 0x32u8, 0x31u8],
            GCodeModal::SetUnits(Unit::Millimeter),
        ),
        modal_word_means(
            spec,
            seq![0x47u8, 0x39u8, 0x30u8],
            GCodeModal::SetCoordinateMode(CoordinateMode::Absolute),
        ),
        modal_word_means(
            spec,
            seq![0x47u8, 0x39u8, 0x31u8],
            GCodeModal::SetCoordinateMode(CoordinateMode::Incremental),
        ),
        modal_word_means(spec, seq![0x4Du8, 0x32u8], GCodeModal::EndProgram),
        modal_word_means(
            spec,
            seq![0x4Du8, 0x33u8],
            GCodeModal::SetSpindle(SpindleMode::Clockwise),
        ),
        modal_word_means(spec, seq![0x4Du8, 0x35u8], GCodeModal::SetSpindle(SpindleMode::Off)),
{
    let d = spec.float_digits as nat;
    lemma_modal_word_means(spec, seq![0x47u8, 0x31u8, 0x37u8], GCodeModal::SetArcPlane(Plane::XY));
    lemma_modal_word_means(spec, seq![0x47u8, 0x31u8, 0x38u8], GCodeModal::SetArcPlane(Plane::ZX));
    lemma_modal_word_means(spec, seq![0x47u8, 0x31u8, 0x39u8], GCodeModal::SetArcPlane(Plane::YZ));
    lemma_modal_word_means(spec, seq![0x47u8, 0x32u8, 0x30u8], GCodeModal::SetUnits(Unit::Inch));
    lemma_modal_word_means(
        spec,
        seq![0x47u8, 0x32u8, 0x31u8],
        GCodeModal::SetUnits(Unit::Millimeter),
    );
    lemma_modal_word_means(
        spec,
        seq![0x47u8, 0x39u8, 0x30u8],
        GCodeModal::SetCoordinateMode(CoordinateMode::Absolute),
    );
    lemma_modal_word_means(
        spec,
        seq![0x47u8, 0x39u8, 0x31u8],
        GCodeModal::SetCoordinateMode(CoordinateMode::Incremental),
    );
    lemma_modal_word_means(spec, seq![0x4Du8, 0x32u8], GCodeModal::EndProgram);
    lemma_modal_word_means(
        spec,
        seq![0x4Du8, 0x33u8],
        GCodeModal::SetSpindle(SpindleMode::Clockwise),
    );
    lemma_modal_word_means(spec, seq![0x4Du8, 0x35u8], GCodeModal::SetSpindle(SpindleMode::Off));
}

/// The line `t` reads as the command `c` alone.
#[verifier::opaque]
pub open spec fn command_word_means(spec: GCodeFormatSpecification, t: Seq<u8>, c: CommandModel) -> bool {
    gcode_line(spec, t) == Some(LineModel { modals: Seq::<GCodeModal>::empty(), command: Some(c) })
}

proof fn lemma_command_word_means(
    spec: GCodeFormatSpecification,
    code: Seq<u8>,
    p: PrimaryCommand,
    c: CommandModel,
)
    requires
        g_effect(code) == Effect::Primary(p),
        code.len() >= 1,
        forall|i: int| 0 <= i < code.len() ==> is_number_char(#[trigger] code[i]),
        code != seq![49u8, 48u8],
        finish_line(PartialModel { primary_command: Some(p), ..empty_partial() }) == Some(
            LineModel { modals: Seq::<GCodeModal>::empty(), command: Some(c) },
        ),
    ensures
        command_word_means(spec, seq![71u8] + code, c),
{
    reveal(command_word_means);
    lemma_single_code_line(spec, code, p);
}

/// Law: the command words mean what G-code says: `G0` is a rapid move and
/// `G1` a controlled one, `G2`/`G3` a clockwise/counterclockwise arc, and
/// `G38.2` to `G38.5` the probes (towards and required, towards and
/// optional, away and required, away and optional); `G4`, a dwell, is not a
/// line without its `P`.
pub proof fn law_command_words(spec: GCodeFormatSpecification)
    ensures
        command_word_means(
            spec,
            seq![0x47u8, 0x30u8],
            CommandModel::Move { mode: MoveMode::Rapid, position: Seq::empty() },
        ),
        command_word_means(
            spec,
            seq![0x47u8, 0x31u8],
            CommandModel::Move { mode: MoveMode::Controlled, position: Seq::empty() },
        ),
        command_word_means(
            spec,
            seq![0x47u8, 0x32u8],
            CommandModel::ArcMove {
                orientation: Orientation::Clockwise,
                position: Seq::empty(),
                offsets: Seq::empty(),
                revolutions: None,
            },
        ),
        command_word_means(
            spec,
            seq![0x47u8, 0x33u8],
            CommandModel::ArcMove {
                orientation: Orientation::Counterclockwise,
                position: Seq::empty(),
                offsets: Seq::empty(),
                revolutions: None,
            },
        ),
        gcode_line(spec, seq![0x47u8, 0x34u8]) is None,
        command_word_means(
            spec,
            seq![0x47u8, 0x33u8, 0x38u8, 0x2Eu8, 0x32u8],
            CommandModel::Probe {
                position: Seq::empty(),
                mode: ProbeDirection::Towards,
                requirement: ProbeRequirement::Require,
            },
        ),
        command_word_means(
            spec,
            seq![0x47u8, 0x33u8, 0x38u8, 0x2Eu8, 0x33u8],
            CommandModel::Probe {
                position: Seq::empty(),
                mode: ProbeDirection::Towards,
                requirement: ProbeRequirement::Optional,
            },
        ),
        command_word_means(
            spec,
            seq![0x47u8, 0x33u8, 0x38u8, 0x2Eu8, 0x34u8],
            CommandModel::Probe {
                position: Seq::empty(),
                mode: ProbeDirection::Away,
                requirement: ProbeRequirement::Require,
            },
        ),
        command_word_means(
            spec,
            seq![0x47u8, 0x33u8, 0x38u8, 0x2Eu8, 0x35u8],
            CommandModel::Probe {
                position: Seq::empty(),
                mode: ProbeDirection::Away,
                requirement: ProbeRequirement::Optional,
            },
        ),
{
    lemma_rapid_word(spec);
    lemma_controlled_word(spec);
    lemma_arc_words(spec);
    lemma_dwell_word(spec);
    lemma_probe_words(spec);
}

proof fn lemma_rapid_word(spec: GCodeFormatSpecification)
    ensures
        command_word_means(
            spec,
            seq![0x47u8, 0x30u8],
            CommandModel::Move { mode: MoveMode::Rapid, position: Seq::empty() },
        ),
{
    lemma_move_code(MoveMode::Rapid);
    lemma_command_word_means(
        spec,
        seq![48u8],
        PrimaryCommand::Move(MoveMode::Rapid),
        CommandModel::Move { mode: MoveMode::Rapid, position: Seq::empty() },
    );
    assert(seq![71u8] + seq![48u8] =~= seq![0x47u8, 0x30u8]);
}

proof fn lemma_controlled_word(spec: GCodeFormatSpecification)
    ensures
        command_word_means(
            spec,
            seq![0x47u8, 0x31u8],
            CommandModel::Move { mode: MoveMode::Controlled, position: Seq::empty() },
        ),
{
    lemma_move_code(MoveMode::Controlled);
    lemma_command_word_means(
        spec,
        seq![49u8],
        PrimaryCommand::Move(MoveMode::Controlled),
        CommandModel::Move { mode: MoveMode::Controlled, position: Seq::empty() },
    );
    assert(seq![71u8] + seq![49u8] =~= seq![0x47u8, 0x31u8]);
}

proof fn lemma_arc_words(spec: GCodeFormatSpecification)
    ensures
        command_word_means(
            spec,
            seq![0x47u8, 0x32u8],
            CommandModel::ArcMove {
                orientation: Orientation::Clockwise,
                position: Seq::empty(),
                offsets: Seq::empty(),
                revolutions: None,
            },
        ),
        command_word_means(
            spec,
            seq![0x47u8, 0x33u8],
            CommandModel::ArcMove {
                orientation: Orientation::Counterclockwise,
                position: Seq::empty(),
                offsets: Seq::empty(),
                revolutions: None,
            },
        ),
{
    lemma_differ(seq![50u8], seq![48u8]);
    lemma_differ(seq![50u8], seq![49u8]);
    lemma_differ(seq![51u8], seq![48u8]);
    lemma_differ(seq![51u8], seq![49u8]);
    lemma_differ(seq![51u8], seq![50u8]);
    assert(seq![50u8] != seq![49u8, 48u8]);
    assert(seq![51u8] != seq![49u8, 48u8]);
    lemma_command_word_means(
        spec,
        seq![50u8],
        PrimaryCommand::ArcMove(Orientation::Clockwise),
        CommandModel::ArcMove {
            orientation: Orientation::Clockwise,
            position: Seq::empty(),
            offsets: Seq::empty(),
            revolutions: None,
        },
    );
    lemma_command_word_means(
        spec,
        seq![51u8],
        PrimaryCommand::ArcMove(Orientation::Counterclockwise),
        CommandModel::ArcMove {
            orientation: Orientation::Counterclockwise,
            position: Seq::empty(),
            offsets: Seq::empty(),
            revolutions: None,
        },
    );
    assert(seq![71u8] + seq![50u8] =~= seq![0x47u8, 0x32u8]);
    assert(seq![71u8] + seq![51u8] =~= seq![0x47u8, 0x33u8]);
}

proof fn lemma_dwell_word(spec: GCodeFormatSpecification)
    ensures
        gcode_line(spec, seq![0x47u8, 0x34u8]) is None,
{
    lemma_differ(seq![52u8], seq![48u8]);
    lemma_differ(seq![52u8], seq![49u8]);
    lemma_differ(seq![52u8], seq![50u8]);
    lemma_differ(seq![52u8], seq![51u8]);
    assert(seq![52u8] != seq![49u8, 48u8]);
    lemma_single_code_line(spec, seq![52u8], PrimaryCommand::Dwell);
    assert(seq![71u8] + seq![52u8] =~= seq![0x47u8, 0x34u8]);
}

proof fn lemma_probe_word_means(
    spec: GCodeFormatSpecification,
    mode: ProbeDirection,
    requirement: ProbeRequirement,
)
    ensures
        command_word_means(
            spec,
            seq![71u8] + probe_code(mode, requirement),
            CommandModel::Probe { position: Seq::empty(), mode, requirement },
        ),
{
    lemma_probe_code(mode, requirement);
    lemma_command_word_means(
        spec,
        probe_code(mode, requirement),
        PrimaryCommand::Probe(mode, requirement),
        CommandModel::Probe { position: Seq::empty(), mode, requirement },
    );
}

proof fn lemma_probe_words(spec: GCodeFormatSpecification)
    ensures
        command_word_means(
            spec,
            seq![0x47u8, 0x33u8, 0x38u8, 0x2Eu8, 0x32u8],
            CommandModel::Probe {
                position: Seq::empty(),
                mode: ProbeDirection::Towards,
                requirement: ProbeRequirement::Require,
            },
        ),
        command_word_means(
            spec,
            seq![0x47u8, 0x33u8, 0x38u8, 0x2Eu8, 0x33u8],
            CommandModel::Probe {
                position: Seq::empty(),
                mode: ProbeDirection::Towards,
                requirement: ProbeRequirement::Optional,
            },
        ),
        command_word_means(
            spec,
            seq![0x47u8, 0x33u8, 0x38u8, 0x2Eu8, 0x34u8],
            CommandModel::Probe {
                position: Seq::empty(),
                mode: ProbeDirection::Away,
                requirement: ProbeRequirement::Require,
            },
        ),
        command_word_means(
            spec,
            seq![0x47u8, 0x33u8, 0x38u8, 0x2Eu8, 0x35u8],
            CommandModel::Probe {
                position: Seq::empty(),
                mode: ProbeDirection::Away,
                requirement: ProbeRequirement::Optional,
            },
        ),
{
    lemma_probe_word_means(spec, ProbeDirection::Towards, ProbeRequirement::Require);
    lemma_probe_word_means(spec, ProbeDirection::Towards, ProbeRequirement::Optional);
    lemma_probe_word_means(spec, ProbeDirection::Away, ProbeRequirement::Require);
    lemma_probe_word_means(spec, ProbeDirection::Away, ProbeRequirement::Optional);
    assert(seq![71u8] + probe_code(ProbeDirection::Towards, ProbeRequirement::Require)
        =~= seq![0x47u8, 0x33u8, 0x38u8, 0x2Eu8, 0x32u8]);
    assert(seq![71u8] + probe_code(ProbeDirection::Towards, ProbeRequirement::Optional)
        =~= seq![0x47u8, 0x33u8, 0x38u8, 0x2Eu8, 0x33u8]);
    assert(seq![71u8] + probe_code(ProbeDirection::Away, ProbeRequirement::Require)
        =~= seq![0x47u8, 0x33u8, 0x38u8, 0x2Eu8, 0x34u8]);
    assert(seq![71u8] + probe_code(ProbeDirection::Away, ProbeRequirement::Optional)
        =~= seq![0x47u8, 0x33u8, 0x38u8, 0x2Eu8, 0x35u8]);
}

/// Law: the printer writes each command word as the reader reads it: a
/// rapid move as `G0`, a controlled one as `G1`, a clockwise arc as `G2`, a
/// counterclockwise one as `G3`, and the probes as `G38.2` to `G38.5`.
pub proof fn law_command_words_written(spec: GCodeFormatSpecification)
    ensures
        command_text(spec, CommandModel::Move { mode: MoveMode::Rapid, position: Seq::empty() })
            == seq![0x47u8, 0x30u8, 0x20u8],
        command_text(
            spec,
            CommandModel::Move { mode: MoveMode::Controlled, position: Seq::empty() },
        ) == seq![0x47u8, 0x31u8, 0x20u8],
        command_text(
            spec,
            CommandModel::ArcMove {
                orientation: Orientation::Clockwise,
                position: Seq::empty(),
                offsets: Seq::empty(),
                revolutions: None,
            },
        ) == seq![0x47u8, 0x32u8, 0x20u8, 0x20u8],
        command_text(
            spec,
            CommandModel::ArcMove {
                orientation: Orientation::Counterclockwise,
                position: Seq::empty(),
                offsets: Seq::empty(),
                revolutions: None,
            },
        ) == seq![0x47u8, 0x33u8, 0x20u8, 0x20u8],
        probe_word(ProbeDirection::Towards, ProbeRequirement::Require) == seq![
            0x47u8,
            0x33u8,
            0x38u8,
            0x2Eu8,
            0x32u8,
        ],
        probe_word(ProbeDirection::Towards, ProbeRequirement::Optional) == seq![
            0x47u8,
            0x33u8,
            0x38u8,
            0x2Eu8,
            0x33u8,
        ],
        probe_word(ProbeDirection::Away, ProbeRequirement::Require) == seq![
            0x47u8,
            0x33u8,
            0x38u8,
            0x2Eu8,
            0x34u8,
        ],
        probe_word(ProbeDirection::Away, ProbeRequirement::Optional) == seq![
            0x47u8,
            0x33u8,
            0x38u8,
            0x2Eu8,
            0x35u8,
        ],
{
    let a = spec.axis_letters@;
    let o = spec.offset_axis_letters@;
    let d = spec.float_digits as nat;
    assert(axes_text(a, Seq::empty(), d) =~= Seq::<u8>::empty());
    assert(axes_text(o, Seq::empty(), d) =~= Seq::<u8>::empty());
    assert(command_text(spec, CommandModel::Move { mode: MoveMode::Rapid, position: Seq::empty() })
        =~= seq![0x47u8, 0x30u8, 0x20u8]);
    assert(command_text(
        spec,
        CommandModel::Move { mode: MoveMode::Controlled, position: Seq::empty() },
    ) =~= seq![0x47u8, 0x31u8, 0x20u8]);
    assert(command_text(
        spec,
        CommandModel::ArcMove {
            orientation: Orientation::Clockwise,
            position: Seq::empty(),
            offsets: Seq::empty(),
            revolutions: None,
        },
    ) =~= seq![0x47u8, 0x32u8, 0x20u8, 0x20u8]);
    assert(command_text(
        spec,
        CommandModel::ArcMove {
            orientation: Orientation::Counterclockwise,
            position: Seq::empty(),
            offsets: Seq::empty(),
            revolutions: None,
        },
    ) =~= seq![0x47u8, 0x33u8, 0x20u8, 0x20u8]);
}

/// One-byte codes that differ are different.
proof fn lemma_differ(a: Seq<u8>, b: Seq<u8>)
    requires
        a.len() == 1,
        b.len() == 1,
        a[0] != b[0],
    ensures
        a != b,
{
}

/// Law: how the words that carry a number are written: a feed rate as `F`
/// and a spindle speed as `S`, followed by the number; a dwell as `G4 P` and
/// its duration; setting the work coordinates as `G10 L20` and the axis
/// words; an axis word as the axis's letter followed by its value.
pub proof fn law_number_words_written(spec: GCodeFormatSpecification, v: Decimal, i: usize)
    ensures
        modal_text(GCodeModal::SetFeedrate(v), spec.float_digits as nat) == seq![0x46u8]
            + fixed_text(v, spec.float_digits as nat),
        modal_text(GCodeModal::SetSpindleSpeed(v), spec.float_digits as nat) == seq![0x53u8]
            + fixed_text(v, spec.float_digits as nat),
        command_text(spec, CommandModel::Dwell { duration: v }) == seq![
            0x47u8,
            0x34u8,
            0x20u8,
            0x50u8,
        ] + fixed_text(v, spec.float_digits as nat),
        command_text(spec, CommandModel::SetWorkCoordinateTo(Seq::empty())) == seq![
            0x47u8,
            0x31u8,
            0x30u8,
            0x20u8,
            0x4Cu8,
            0x32u8,
            0x30u8,
            0x20u8,
        ],
        (i < spec.axis_letters@.len() && spec.axis_letters@[i as int] < 128) ==> axis_word_text(
            spec.axis_letters@,
            (i, v),
            spec.float_digits as nat,
        ) == seq![spec.axis_letters@[i as int]] + fixed_text(v, spec.float_digits as nat),
{
    let d = spec.float_digits as nat;
    let a = spec.axis_letters@;
    let number = fixed_text(v, d);
    assert(command_text(spec, CommandModel::Dwell { duration: v }) =~= seq![
        0x47u8,
        0x34u8,
        0x20u8,
        0x50u8,
    ] + number);
    assert(axes_text(a, Seq::empty(), d) =~= Seq::<u8>::empty());
    assert(command_text(spec, CommandModel::SetWorkCoordinateTo(Seq::empty())) =~= seq![
        0x47u8,
        0x31u8,
        0x30u8,
        0x20u8,
        0x4Cu8,
        0x32u8,
        0x30u8,
        0x20u8,
    ]);
    if i < a.len() && a[i as int] < 128 {
        assert(letter_text(a[i as int]) == seq![a[i as int]]);
    }
}

/// Law: `F` followed by a number sets that feed rate.
pub proof fn law_feed_word_read(spec: GCodeFormatSpecification, v: Decimal)
    requires
        rereadable_number(v, spec.float_digits as nat),
    ensures
        gcode_line(spec, seq![0x46u8] + fixed_text(v, spec.float_digits as nat)) == Some(
            LineModel { modals: seq![GCodeModal::SetFeedrate(v)], command: None },
        ),
{
    lemma_single_modal_line(spec, GCodeModal::SetFeedrate(v));
}

/// Law: `G4 P` followed by a number dwells that long.
pub proof fn law_dwell_word_read(spec: GCodeFormatSpecification, v: Decimal)
    requires
        rereadable_number(v, spec.float_digits as nat),
    ensures
        gcode_line(spec, seq![0x47u8, 0x34u8, 0x20u8, 0x50u8] + fixed_text(v, spec.float_digits as nat))
            == Some(
            LineModel {
                modals: Seq::<GCodeModal>::empty(),
                command: Some(CommandModel::Dwell { duration: v }),
            },
        ),
{
    let line = LineModel {
        modals: Seq::<GCodeModal>::empty(),
        command: Some(CommandModel::Dwell { duration: v }),
    };
    lemma_dwell_line_reads_back(spec, Seq::empty(), v);
    assert(line_text(spec, line) =~= seq![0x47u8, 0x34u8, 0x20u8, 0x50u8] + fixed_text(
        v,
        spec.float_digits as nat,
    ));
}

/// Law: `G1` followed by the letter of axis `i` and a number moves axis `i`
/// to that value, given letters the reader can tell apart.
pub proof fn law_axis_word_read(spec: GCodeFormatSpecification, v: Decimal, i: usize)
    requires
        axis_letters_ok(spec.axis_letters@),
        i < spec.axis_letters@.len(),
        rereadable_number(v, spec.float_digits as nat),
    ensures
        gcode_line(
            spec,
            seq![0x47u8, 0x31u8, 0x20u8, spec.axis_letters@[i as int]] + fixed_text(
                v,
                spec.float_digits as nat,
            ),
        ) == Some(
            LineModel {
                modals: Seq::<GCodeModal>::empty(),
                command: Some(
                    CommandModel::Move { mode: MoveMode::Controlled, position: seq![(i, v)] },
                ),
            },
        ),
{
    let d = spec.float_digits as nat;
    let a = spec.axis_letters@;
    let position = seq![(i, v)];
    let line = LineModel {
        modals: Seq::<GCodeModal>::empty(),
        command: Some(CommandModel::Move { mode: MoveMode::Controlled, position }),
    };
    assert(position[0] == (i, v));
    assert(rereadable_line(spec, line));
    law_line_reads_back(spec, line);
    assert(is_alpha(a[i as int]));
    assert(letter_text(a[i as int]) == seq![a[i as int]]);
    assert(axes_text(a, position, d) == axis_word_text(a, (i, v), d));
    assert(line_text(spec, line) =~= seq![0x47u8, 0x31u8, 0x20u8, a[i as int]] + fixed_text(v, d));
}

} // verus!
