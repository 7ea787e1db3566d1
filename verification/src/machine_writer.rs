//! Accounting for lines sent to the controller: never more than a fixed
//! number of bytes (and never more than eight lines) may be waiting in the
//! controller's receive buffer at once. A line that does not fit is held back
//! until enough earlier lines have been acknowledged.
//!
//! The writer decides what is written and when; the caller performs the
//! writes it hands back.
use vstd::prelude::*;
use ringbuf::ring_buffer::RbBase;
use ringbuf::{LocalRb, Rb};
use std::mem::MaybeUninit;

verus! {

/// The ring buffer of a line count, kept opaque: what it holds is named by
/// `buffered_lengths` and changed only through the functions below.
#[verifier::external_body]
pub struct LengthRing {
    rb: LocalRb<u16, [MaybeUninit<u16>; 8]>,
}

/// The lengths held by the ring buffer, oldest first.
pub uninterp spec fn buffered_lengths(rb: LengthRing) -> Seq<u16>;

/// `LocalRb::default`: an empty ring buffer with room for eight items.
#[verifier::external_body]
fn rb_new() -> (rb: LengthRing)
    ensures
        buffered_lengths(rb) == Seq::<u16>::empty(),
{
    LengthRing { rb: LocalRb::default() }
}

/// `Rb::push`: appends the item at the back unless the buffer already holds
/// eight; reports whether it did.
#[verifier::external_body]
fn rb_push(rb: &mut LengthRing, v: u16) -> (ok: bool)
    ensures
        ok == (buffered_lengths(*old(rb)).len() < 8),
        ok ==> buffered_lengths(*final(rb)) == buffered_lengths(*old(rb)).push(v),
        !ok ==> buffered_lengths(*final(rb)) == buffered_lengths(*old(rb)),
{
    rb.rb.push(v).is_ok()
}

/// `Rb::pop`: removes and returns the oldest item, if any.
#[verifier::external_body]
fn rb_pop(rb: &mut LengthRing) -> (r: Option<u16>)
    ensures
        buffered_lengths(*old(rb)).len() == 0 ==> r is None && buffered_lengths(*final(rb))
            == buffered_lengths(*old(rb)),
        buffered_lengths(*old(rb)).len() > 0 ==> r == Some(buffered_lengths(*old(rb))[0])
            && buffered_lengths(*final(rb)) == buffered_lengths(*old(rb)).drop_first(),
{
    rb.rb.pop()
}

/// `RbBase::is_full`: whether no place is vacant among the eight.
#[verifier::external_body]
fn rb_is_full(rb: &LengthRing) -> (b: bool)
    ensures
        b == (buffered_lengths(*rb).len() >= 8),
{
    rb.rb.is_full()
}

/// `Rb::len`: how many items the buffer holds.
#[verifier::external_body]
fn rb_len(rb: &LengthRing) -> (n: usize)
    ensures
        n == buffered_lengths(*rb).len(),
{
    rb.rb.len()
}

/// `Rb::clear`: removes every item.
#[verifier::external_body]
fn rb_clear(rb: &mut LengthRing)
    ensures
        buffered_lengths(*final(rb)) == Seq::<u16>::empty(),
{
    rb.rb.clear();
}

/// Sum of the lengths.
pub open spec fn total(s: Seq<u16>) -> int
    decreases s.len(),
{
    if s.len() == 0 {
        0
    } else {
        total(s.drop_last()) + s.last()
    }
}

proof fn lemma_total_push(s: Seq<u16>, v: u16)
    ensures
        total(s.push(v)) == total(s) + v,
{
    assert(s.push(v).drop_last() =~= s);
}

proof fn lemma_total_drop_first(s: Seq<u16>)
    requires
        s.len() > 0,
    ensures
        total(s) == s[0] + total(s.drop_first()),
    decreases s.len(),
{
    if s.len() > 1 {
        lemma_total_drop_first(s.drop_last());
        assert(s.drop_last().drop_first() =~= s.drop_first().drop_last());
    } else {
        assert(s.drop_first() =~= Seq::<u16>::empty());
        assert(s.drop_last() =~= Seq::<u16>::empty());
    }
}

proof fn lemma_total_nonneg(s: Seq<u16>)
    ensures
        total(s) >= 0,
        s.len() > 0 ==> total(s) >= s[0],
    decreases s.len(),
{
    if s.len() > 0 {
        lemma_total_drop_first(s);
        lemma_total_nonneg(s.drop_first());
    }
}

/// The sum of the lengths is their first plus the sum of the rest, and
/// at least the first.
pub proof fn lemma_total_facts(s: Seq<u16>)
    requires
        s.len() > 0,
    ensures
        total(s) == s[0] + total(s.drop_first()),
        total(s) >= s[0],
{
    lemma_total_drop_first(s);
    lemma_total_nonneg(s);
}

/// The state of the accounting.
pub struct WriterModel {
    pub max_waiting_size: u16,
    pub waiting_size: u16,
    /// Lengths of the lines written and not yet acknowledged, oldest first.
    pub waiting_lines: Seq<u16>,
    /// The line held back, if any.
    pub next_line: Option<Seq<u8>>,
}

pub struct BufferCountingWriter {
    max_waiting_size: u16,
    waiting_size: u16,
    waiting_lines: LengthRing,
    next_line: Option<Vec<u8>>,
}

impl View for BufferCountingWriter {
    type V = WriterModel;

    closed spec fn view(&self) -> WriterModel {
        WriterModel {
            max_waiting_size: self.max_waiting_size,
            waiting_size: self.waiting_size,
            waiting_lines: buffered_lengths(self.waiting_lines),
            next_line: match &self.next_line {
                Some(v) => Some(v@),
                None => None,
            },
        }
    }
}

/// The length a line is counted with: its byte count, truncated to 16 bits.
pub open spec fn line_length(bytes: Seq<u8>) -> u16 {
    (bytes.len() as usize) as u16
}

/// Whether a line of `length` bytes may be written now.
pub open spec fn fits(m: WriterModel, length: u16) -> bool {
    m.waiting_size + length <= m.max_waiting_size && m.waiting_lines.len() < 8
}

impl WriterModel {
    /// The waiting size is the sum of the waiting lines, at most the maximum,
    /// and at most eight lines wait.
    pub open spec fn wf(self) -> bool {
        &&& self.waiting_lines.len() <= 8
        &&& self.waiting_size == total(self.waiting_lines)
        &&& self.waiting_size <= self.max_waiting_size
    }

    /// The state after a line of `length` bytes is written.
    pub open spec fn written(self, length: u16) -> WriterModel {
        WriterModel {
            waiting_size: (self.waiting_size + length) as u16,
            waiting_lines: self.waiting_lines.push(length),
            ..self
        }
    }
}

impl BufferCountingWriter {
    /// An empty writer allowing `max_waiting_size` bytes to wait.
    pub fn new(max_waiting_size: u16) -> (w: Self)
        ensures
            w@.wf(),
            w@ == (WriterModel {
                max_waiting_size,
                waiting_size: 0,
                waiting_lines: Seq::empty(),
                next_line: None,
            }),
    {
        BufferCountingWriter {
            max_waiting_size,
            waiting_size: 0,
            waiting_lines: rb_new(),
            next_line: None,
        }
    }

    /// Forgets every pending and held-back line.
    pub fn clear_waiting(&mut self)
        ensures
            final(self)@ == (WriterModel {
                waiting_size: 0,
                waiting_lines: Seq::empty(),
                next_line: None,
                ..old(self)@
            }),
            final(self)@.wf(),
    {
        rb_clear(&mut self.waiting_lines);
        self.next_line = None;
        self.waiting_size = 0;
    }

    /// Whether `enqueue_line` may be called: no line is held back.
    pub fn can_enqueue_line(&self) -> (b: bool)
        ensures
            b == (self@.next_line is None),
    {
        self.next_line.is_none()
    }

    /// Whether a written line still waits for its acknowledgement.
    pub fn has_waiting_line(&self) -> (b: bool)
        ensures
            b == (self@.waiting_lines.len() > 0),
    {
        rb_len(&self.waiting_lines) > 0
    }

    fn can_write_line_immediate_with_length(&self, length: u16) -> (b: bool)
        requires
            self@.wf(),
        ensures
            b == fits(self@, length),
    {
        (self.waiting_size as u32) + (length as u32) <= (self.max_waiting_size as u32)
            && !rb_is_full(&self.waiting_lines)
    }

    fn write_line_immediate(&mut self, bytes: Vec<u8>, length: u16) -> (r: Vec<u8>)
        requires
            old(self)@.wf(),
            fits(old(self)@, length),
        ensures
            final(self)@ == old(self)@.written(length),
            final(self)@.wf(),
            r@ == bytes@,
    {
        let ok = rb_push(&mut self.waiting_lines, length);
        proof {
            lemma_total_push(old(self)@.waiting_lines, length);
        }
        self.waiting_size = self.waiting_size + length;
        bytes
    }

    /// Offers a line. When it fits it is counted and handed back to be
    /// written now; otherwise it is held back and nothing is written.
    pub fn enqueue_line(&mut self, bytes: Vec<u8>) -> (r: Option<Vec<u8>>)
        requires
            old(self)@.wf(),
            old(self)@.next_line is None,
        ensures
            final(self)@.wf(),
            fits(old(self)@, line_length(bytes@)) ==> (r matches Some(w) && w@ == bytes@
                && final(self)@ == old(self)@.written(line_length(bytes@))),
            !fits(old(self)@, line_length(bytes@)) ==> r is None && final(self)@ == (WriterModel {
                next_line: Some(bytes@),
                ..old(self)@
            }),
    {
        let length = bytes.len() as u16;
        if self.can_write_line_immediate_with_length(length) {
            Some(self.write_line_immediate(bytes, length))
        } else {
            self.next_line = Some(bytes);
            None
        }
    }

    /// Records that the controller acknowledged the oldest waiting line. When
    /// the held-back line now fits, it is counted and handed back to be
    /// written.
    pub fn pop_received_line(&mut self) -> (r: Option<Vec<u8>>)
        requires
            old(self)@.wf(),
            old(self)@.waiting_lines.len() > 0,
        ensures
            final(self)@.wf(),
            ({
                let freed = WriterModel {
                    waiting_size: (old(self)@.waiting_size - old(self)@.waiting_lines[0]) as u16,
                    waiting_lines: old(self)@.waiting_lines.drop_first(),
                    ..old(self)@
                };
                match old(self)@.next_line {
                    Some(next) => if fits(freed, line_length(next)) {
                        (r matches Some(w) && w@ == next && final(self)@ == (WriterModel {
                            next_line: None,
                            ..freed
                        }).written(line_length(next)))
                    } else {
                        r is None && final(self)@ == freed
                    },
                    None => r is None && final(self)@ == freed,
                }
            }),
    {
        let ghost before = self@;
        let received_length = match rb_pop(&mut self.waiting_lines) {
            Some(l) => l,
            None => {
                return None;
            },
        };
        proof {
            lemma_total_drop_first(before.waiting_lines);
            lemma_total_nonneg(before.waiting_lines.drop_first());
        }
        self.waiting_size = self.waiting_size - received_length;
        if self.next_line.is_some() {
            let length = match &self.next_line {
                Some(next_line) => {
                    next_line.len() as u16
                },
                None => 0,
            };
            if self.can_write_line_immediate_with_length(length) {
                let line = self.next_line.take();
                match line {
                    Some(line) => {
                        return Some(self.write_line_immediate(line, length));
                    },
                    None => {},
                }
            }
        }
        None
    }
}

/// Law: a line is written at once exactly when writing it keeps the
/// controller's buffer within its limits (the bytes waiting, at most the
/// maximum; at most eight lines) and the count of bytes right.
pub proof fn law_writes_within_limits(m: WriterModel, length: u16)
    requires
        m.wf(),
        m.waiting_size + length <= u16::MAX,
    ensures
        fits(m, length) <==> m.written(length).wf(),
        fits(m, length) ==> m.written(length).waiting_size == m.waiting_size + length,
{
    lemma_total_push(m.waiting_lines, length);
}

} // verus!
