//! Framing of the inbound byte stream into lines.
//!
//! Bytes arrive one at a time from the connection. A start-of-heading byte
//! is skipped, a carriage return is skipped, and a line feed flushes the
//! current buffer as one line. A line's raw byte count is capped at 512:
//! once 512 raw bytes have been consumed without a line feed, the buffer is
//! flushed as if the line had ended. Empty lines are never emitted.

use crate::wire::{seq_views, CR, LF};
use vstd::prelude::*;

verus! {

/// The start-of-heading control byte, skipped by the framer.
pub const SOH: u8 = 1;

/// The cap on a line's raw byte count.
pub const MAX_RAW: usize = 512;

/// The mathematical state of the framer: the content bytes of the line
/// being accumulated, and the raw byte count consumed for that line
/// (content bytes plus skipped control bytes).
pub struct FrameState {
    pub buf: Seq<u8>,
    pub raw: nat,
}

/// The framer's state at the start of a line.
pub open spec fn init_state() -> FrameState {
    FrameState { buf: Seq::empty(), raw: 0 }
}

/// A well-formed framer state: content cannot outnumber raw bytes, and a
/// full line would already have been flushed.
pub open spec fn state_ok(st: FrameState) -> bool {
    &&& st.buf.len() <= st.raw
    &&& st.raw < MAX_RAW
    &&& clean_line(st.buf)
}

/// A line's bytes are free of the control bytes the framer strips.
pub open spec fn clean_line(l: Seq<u8>) -> bool {
    forall|i: int| 0 <= i < l.len() ==> l[i] != CR && l[i] != SOH && l[i] != LF
}

/// A byte sequence with no carriage-return and no start-of-heading bytes.
pub open spec fn no_cr_soh(s: Seq<u8>) -> bool {
    forall|i: int| 0 <= i < s.len() ==> s[i] != CR && s[i] != SOH
}

/// What a flush emits: the buffer as one line if it is non-empty, nothing
/// otherwise.
pub open spec fn emit_of(buf: Seq<u8>) -> Seq<Seq<u8>> {
    if buf.len() > 0 {
        seq![buf]
    } else {
        Seq::empty()
    }
}

/// One step of the framer: the state after consuming `b`, and the lines
/// emitted by that step.
pub open spec fn frame_step(st: FrameState, b: u8) -> (FrameState, Seq<Seq<u8>>) {
    if b == LF {
        (init_state(), emit_of(st.buf))
    } else {
        let buf2 = if b == CR || b == SOH {
            st.buf
        } else {
            st.buf.push(b)
        };
        if st.raw + 1 == MAX_RAW {
            (init_state(), emit_of(buf2))
        } else {
            (FrameState { buf: buf2, raw: st.raw + 1 }, Seq::<Seq<u8>>::empty())
        }
    }
}

/// The framer folded over a whole byte sequence: the final state and every
/// line emitted along the way, in order.
pub open spec fn frame_feed(st: FrameState, s: Seq<u8>) -> (FrameState, Seq<Seq<u8>>)
    decreases s.len(),
{
    if s.len() == 0 {
        (st, Seq::<Seq<u8>>::empty())
    } else {
        let step = frame_step(st, s[0]);
        let rest = frame_feed(step.0, s.drop_first());
        (rest.0, step.1 + rest.1)
    }
}

/// The non-empty line-feed-terminated segments of a byte sequence, `cur`
/// being content already accumulated for the segment in progress. Bytes
/// after the last line feed belong to no segment.
pub open spec fn split_feed(cur: Seq<u8>, s: Seq<u8>) -> Seq<Seq<u8>>
    decreases s.len(),
{
    if s.len() == 0 {
        Seq::<Seq<u8>>::empty()
    } else if s[0] == LF {
        emit_of(cur) + split_feed(Seq::empty(), s.drop_first())
    } else {
        split_feed(cur.push(s[0]), s.drop_first())
    }
}

/// No line of the stream overruns the raw cap, `raw` raw bytes having
/// already been consumed for the line in progress: a line may reach the cap
/// exactly only when its line feed follows at once.
pub open spec fn runs_ok(raw: nat, s: Seq<u8>) -> bool
    decreases s.len(),
{
    if s.len() == 0 {
        true
    } else if s[0] == LF {
        runs_ok(0, s.drop_first())
    } else if raw + 1 == MAX_RAW {
        s.len() >= 2 && s[1] == LF && runs_ok(0, s.drop_first())
    } else {
        runs_ok(raw + 1, s.drop_first())
    }
}

/// The number of line-feed bytes in a byte sequence.
pub open spec fn count_lf(s: Seq<u8>) -> nat
    decreases s.len(),
{
    if s.len() == 0 {
        0
    } else {
        (if s[0] == LF {
            1nat
        } else {
            0nat
        }) + count_lf(s.drop_first())
    }
}

/// Every line feed of the stream ends a non-empty line, `cur` bytes having
/// already been consumed for the line in progress.
pub open spec fn no_empty_lines(cur: nat, s: Seq<u8>) -> bool
    decreases s.len(),
{
    if s.len() == 0 {
        true
    } else if s[0] == LF {
        cur > 0 && no_empty_lines(0, s.drop_first())
    } else {
        no_empty_lines(cur + 1, s.drop_first())
    }
}

/// Feeding any bytes to a well-formed framer leaves it well formed, and
/// every line it emits is free of carriage-return, start-of-heading and
/// line-feed bytes.
pub proof fn lemma_emitted_clean(st: FrameState, s: Seq<u8>)
    requires
        state_ok(st),
    ensures
        state_ok(frame_feed(st, s).0),
        forall|i: int|
            0 <= i < frame_feed(st, s).1.len() ==> clean_line(#[trigger] frame_feed(st, s).1[i]),
    decreases s.len(),
{
    if s.len() > 0 {
        let step = frame_step(st, s[0]);
        assert(state_ok(step.0));
        lemma_emitted_clean(step.0, s.drop_first());
        let rest = frame_feed(step.0, s.drop_first());
        assert forall|i: int|
            0 <= i < frame_feed(st, s).1.len() implies clean_line(
            #[trigger] frame_feed(st, s).1[i],
        ) by {
            if i < step.1.len() {
                assert(frame_feed(st, s).1[i] == step.1[i]);
            } else {
                assert(frame_feed(st, s).1[i] == rest.1[i - step.1.len()]);
            }
        }
    }
}

/// Every line a well-formed framer emits holds at most the raw cap's worth
/// of bytes: an overlong line is truncated at the cap.
pub proof fn lemma_emitted_bounded(st: FrameState, s: Seq<u8>)
    requires
        st.buf.len() <= st.raw,
        st.raw < MAX_RAW,
    ensures
        forall|i: int|
            0 <= i < frame_feed(st, s).1.len() ==> (#[trigger] frame_feed(st, s).1[i]).len()
                <= MAX_RAW,
    decreases s.len(),
{
    if s.len() > 0 {
        let step = frame_step(st, s[0]);
        lemma_emitted_bounded(step.0, s.drop_first());
        let rest = frame_feed(step.0, s.drop_first());
        assert forall|i: int|
            0 <= i < frame_feed(st, s).1.len() implies (#[trigger] frame_feed(st, s).1[i]).len()
            <= MAX_RAW by {
            if i < step.1.len() {
                assert(frame_feed(st, s).1[i] == step.1[i]);
            } else {
                assert(frame_feed(st, s).1[i] == rest.1[i - step.1.len()]);
            }
        }
    }
}

/// On a stream with no carriage-return or start-of-heading bytes whose
/// lines never overrun the raw cap, the framer emits exactly the non-empty
/// line-feed-terminated segments of the stream, in order.
pub proof fn lemma_feed_exact(st: FrameState, s: Seq<u8>)
    requires
        st.buf.len() == st.raw,
        st.raw < MAX_RAW,
        no_cr_soh(s),
        runs_ok(st.raw, s),
    ensures
        frame_feed(st, s).1 == split_feed(st.buf, s),
    decreases s.len(),
{
    if s.len() > 0 {
        let b = s[0];
        let rest = s.drop_first();
        assert(no_cr_soh(rest)) by {
            assert forall|i: int| 0 <= i < rest.len() implies rest[i] != CR && rest[i] != SOH by {
                assert(rest[i] == s[i + 1]);
            }
        }
        if b == LF {
            lemma_feed_exact(init_state(), rest);
            assert(frame_feed(st, s).1 =~= split_feed(st.buf, s));
        } else {
            let buf2 = st.buf.push(b);
            if st.raw + 1 == MAX_RAW {
                lemma_feed_exact(init_state(), rest);
                assert(rest[0] == s[1]);
                assert(split_feed(st.buf, s) == split_feed(buf2, rest));
                assert(split_feed(buf2, rest) == emit_of(buf2) + split_feed(
                    Seq::empty(),
                    rest.drop_first(),
                ));
                assert(split_feed(Seq::<u8>::empty(), rest) =~= emit_of(Seq::<u8>::empty())
                    + split_feed(Seq::empty(), rest.drop_first()));
                assert(frame_feed(st, s).1 =~= split_feed(st.buf, s));
            } else {
                lemma_feed_exact(FrameState { buf: buf2, raw: st.raw + 1 }, rest);
                assert(frame_feed(st, s).1 =~= split_feed(st.buf, s));
            }
        }
    }
}

/// When additionally every line feed ends a non-empty line, the segment
/// count is exactly the line-feed count.
pub proof fn lemma_split_count(cur: Seq<u8>, s: Seq<u8>)
    requires
        no_empty_lines(cur.len(), s),
    ensures
        split_feed(cur, s).len() == count_lf(s),
    decreases s.len(),
{
    if s.len() > 0 {
        if s[0] == LF {
            lemma_split_count(Seq::empty(), s.drop_first());
        } else {
            lemma_split_count(cur.push(s[0]), s.drop_first());
        }
    }
}

/// A fresh framer fed a stream with no carriage-return or start-of-heading
/// bytes, whose lines never overrun the raw cap and whose line feeds each
/// end a non-empty line, emits exactly one line per line feed.
pub proof fn lemma_line_count(s: Seq<u8>)
    requires
        no_cr_soh(s),
        runs_ok(0, s),
        no_empty_lines(0, s),
    ensures
        frame_feed(init_state(), s).1.len() == count_lf(s),
{
    lemma_feed_exact(init_state(), s);
    lemma_split_count(Seq::empty(), s);
}

/// The inbound line framer: accumulates content bytes and counts raw bytes
/// for the line in progress.
pub struct LineFramer {
    buf: Vec<u8>,
    raw: usize,
}

impl View for LineFramer {
    type V = FrameState;

    closed spec fn view(&self) -> FrameState {
        FrameState { buf: self.buf@, raw: self.raw as nat }
    }
}

impl LineFramer {
    /// A well-formed framer.
    pub open spec fn wf(&self) -> bool {
        state_ok(self@)
    }

    /// A fresh framer at the start of a line.
    pub fn new() -> (r: LineFramer)
        ensures
            r.wf(),
            r@ == init_state(),
    {
        let r = LineFramer { buf: Vec::new(), raw: 0 };
        proof {
            assert(r@.buf =~= init_state().buf);
        }
        r
    }

    /// Flushes the line in progress, resetting the state for the next line.
    fn flush(&mut self) -> (line: Option<Vec<u8>>)
        ensures
            final(self)@ == init_state(),
            final(self).wf(),
            match line {
                Some(l) => l@ == old(self)@.buf && l@.len() > 0,
                None => old(self)@.buf.len() == 0,
            },
    {
        let flushed = vstd::slice::slice_to_vec(self.buf.as_slice());
        self.buf.clear();
        self.raw = 0;
        proof {
            assert(self@.buf =~= init_state().buf);
        }
        if flushed.len() > 0 {
            Some(flushed)
        } else {
            None
        }
    }

    /// Consumes one inbound byte; returns the completed line when this byte
    /// finishes one.
    pub fn push_byte(&mut self, b: u8) -> (line: Option<Vec<u8>>)
        requires
            old(self).wf(),
        ensures
            final(self).wf(),
            final(self)@ == frame_step(old(self)@, b).0,
            match line {
                Some(l) => frame_step(old(self)@, b).1 == seq![l@],
                None => frame_step(old(self)@, b).1 == Seq::<Seq<u8>>::empty(),
            },
    {
        if b == LF {
            self.flush()
        } else {
            if b != CR && b != SOH {
                self.buf.push(b);
            }
            if self.raw + 1 == MAX_RAW {
                self.flush()
            } else {
                self.raw = self.raw + 1;
                None
            }
        }
    }

    /// Consumes a chunk of inbound bytes; returns every line completed
    /// within it, in order.
    pub fn feed(&mut self, chunk: &[u8]) -> (lines: Vec<Vec<u8>>)
        requires
            old(self).wf(),
        ensures
            final(self).wf(),
            final(self)@ == frame_feed(old(self)@, chunk@).0,
            seq_views(lines@) == frame_feed(old(self)@, chunk@).1,
    {
        let mut lines: Vec<Vec<u8>> = Vec::new();
        let mut k: usize = 0;
        proof {
            assert(chunk@.skip(0) =~= chunk@);
            assert(seq_views(lines@) =~= Seq::<Seq<u8>>::empty());
        }
        while k < chunk.len()
            invariant
                k <= chunk@.len(),
                self.wf(),
                frame_feed(old(self)@, chunk@).0 == frame_feed(self@, chunk@.skip(k as int)).0,
                frame_feed(old(self)@, chunk@).1 == seq_views(lines@) + frame_feed(
                    self@,
                    chunk@.skip(k as int),
                ).1,
            decreases chunk@.len() - k,
        {
            let ghost pre = self@;
            let ghost rest = chunk@.skip(k as int);
            proof {
                assert(rest.len() > 0);
                assert(rest[0] == chunk@[k as int]);
                assert(rest.drop_first() =~= chunk@.skip(k as int + 1));
            }
            let r = self.push_byte(chunk[k]);
            match r {
                Some(l) => {
                    proof {
                        assert(seq_views(lines@.push(l)) =~= seq_views(lines@).push(l@));
                    }
                    lines.push(l);
                },
                None => {},
            }
            k = k + 1;
            proof {
                assert(frame_feed(pre, rest).0 == frame_feed(self@, rest.drop_first()).0);
                assert(frame_feed(pre, rest).1 == frame_step(pre, rest[0]).1 + frame_feed(
                    self@,
                    rest.drop_first(),
                ).1);
            }
        }
        proof {
            assert(chunk@.skip(chunk@.len() as int) =~= Seq::<u8>::empty());
            assert(seq_views(lines@) + Seq::<Seq<u8>>::empty() =~= seq_views(lines@));
        }
        lines
    }
}

} // verus!
