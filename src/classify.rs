//! Turns a child process's raw output bytes into classified lines: finalized
//! (`\n` or `\r\n`) or transient (a bare `\r`), with ANSI escapes removed.
use vstd::prelude::*;

use crate::text::{line_text, trimmed_lossy};

verus! {

pub const ESC: u8 = 0x1b;

pub const CR: u8 = 0x0d;

pub const LF: u8 = 0x0a;

/// How a line ended.
#[derive(Debug, Clone, Copy, PartialEq, Eq, Structural)]
pub enum LineKind {
    /// Ended by `\n` or `\r\n`, or by the end of the stream.
    Log,
    /// Ended by a bare `\r`: the terminal redraws it in place.
    Activity,
}

/// A classified line of output; its text is trimmed and never empty.
#[derive(Debug, Clone)]
pub enum LineEvent {
    Log(String),
    Activity(String),
}

impl View for LineEvent {
    type V = (LineKind, Seq<char>);

    open spec fn view(&self) -> (LineKind, Seq<char>) {
        match self {
            LineEvent::Log(t) => (LineKind::Log, t@),
            LineEvent::Activity(t) => (LineKind::Activity, t@),
        }
    }
}

/// The classifier's state between two bytes.
pub struct ScanState {
    pub in_escape: bool,
    pub after_cr: bool,
    pub line: Seq<u8>,
}

/// A line as raw bytes, before decoding, with how it ended.
pub type RawLine = (LineKind, Seq<u8>);

pub open spec fn initial_state() -> ScanState {
    ScanState { in_escape: false, after_cr: false, line: Seq::empty() }
}

/// Ends an escape sequence.
pub open spec fn is_escape_end(b: u8) -> bool {
    (0x41 <= b && b <= 0x5a) || (0x61 <= b && b <= 0x7a) || b == 0x7e
}

/// Handles one byte when no carriage return is pending.
pub open spec fn plain_step(s: ScanState, b: u8) -> (ScanState, Seq<RawLine>) {
    if s.in_escape {
        (ScanState { in_escape: !is_escape_end(b), ..s }, seq![])
    } else if b == ESC {
        (ScanState { in_escape: true, ..s }, seq![])
    } else if b == CR {
        (ScanState { after_cr: true, ..s }, seq![])
    } else if b == LF {
        (ScanState { line: Seq::empty(), ..s }, seq![(LineKind::Log, s.line)])
    } else {
        (ScanState { line: s.line.push(b), ..s }, seq![])
    }
}

/// Handles one byte: a pending `\r` followed by `\n` ends a finalized line;
/// followed by anything else it ends a transient line, and that byte is then
/// handled as usual.
pub open spec fn step(s: ScanState, b: u8) -> (ScanState, Seq<RawLine>) {
    if s.after_cr {
        let cleared = ScanState { after_cr: false, line: Seq::empty(), ..s };
        if b == LF {
            (cleared, seq![(LineKind::Log, s.line)])
        } else {
            let (next, more) = plain_step(cleared, b);
            (next, seq![(LineKind::Activity, s.line)] + more)
        }
    } else {
        plain_step(s, b)
    }
}

/// The state reached and the raw lines ended, feeding `bytes` from `s`.
pub open spec fn run(s: ScanState, bytes: Seq<u8>) -> (ScanState, Seq<RawLine>)
    decreases bytes.len(),
{
    if bytes.len() == 0 {
        (s, seq![])
    } else {
        let (mid, first) = run(s, bytes.drop_last());
        let (next, last) = step(mid, bytes.last());
        (next, first + last)
    }
}

/// The events made of raw lines: each is decoded and trimmed, and those left
/// empty are dropped.
pub open spec fn events_of(raw: Seq<RawLine>) -> Seq<(LineKind, Seq<char>)>
    decreases raw.len(),
{
    if raw.len() == 0 {
        seq![]
    } else {
        let rest = events_of(raw.drop_last());
        let text = line_text(raw.last().1);
        if text.len() == 0 {
            rest
        } else {
            rest.push((raw.last().0, text))
        }
    }
}

pub open spec fn views(events: Seq<LineEvent>) -> Seq<(LineKind, Seq<char>)> {
    events.map_values(|e: LineEvent| e@)
}

pub proof fn lemma_events_of_concat(a: Seq<RawLine>, b: Seq<RawLine>)
    ensures
        events_of(a + b) == events_of(a) + events_of(b),
    decreases b.len(),
{
    if b.len() == 0 {
        assert(a + b =~= a);
        assert(events_of(b) =~= seq![]);
        assert(events_of(a) + events_of(b) =~= events_of(a));
    } else {
        assert((a + b).drop_last() =~= a + b.drop_last());
        lemma_events_of_concat(a, b.drop_last());
        assert((a + b).last() == b.last());
        let text = line_text(b.last().1);
        if text.len() != 0 {
            assert(events_of(a) + events_of(b.drop_last()).push((b.last().0, text)) =~= (events_of(a)
                + events_of(b.drop_last())).push((b.last().0, text)));
        }
    }
}

/// Strips a byte stream by hand: escape sequences, `\r` and `\n` are removed.
/// Returns whether the stream ends inside an escape sequence, and the bytes
/// that are kept.
pub open spec fn strip_terminal(bytes: Seq<u8>) -> (bool, Seq<u8>)
    decreases bytes.len(),
{
    if bytes.len() == 0 {
        (false, seq![])
    } else {
        let (in_escape, kept) = strip_terminal(bytes.drop_last());
        let b = bytes.last();
        if in_escape {
            (!is_escape_end(b), kept)
        } else if b == ESC {
            (true, kept)
        } else if b == CR || b == LF {
            (false, kept)
        } else {
            (false, kept.push(b))
        }
    }
}

/// The bytes of the raw lines, one after the other.
pub open spec fn joined(raw: Seq<RawLine>) -> Seq<u8>
    decreases raw.len(),
{
    if raw.len() == 0 {
        seq![]
    } else {
        joined(raw.drop_last()) + raw.last().1
    }
}

proof fn lemma_joined_concat(a: Seq<RawLine>, b: Seq<RawLine>)
    ensures
        joined(a + b) == joined(a) + joined(b),
    decreases b.len(),
{
    if b.len() == 0 {
        assert(a + b =~= a);
        assert(joined(a) + joined(b) =~= joined(a));
    } else {
        assert((a + b).drop_last() =~= a + b.drop_last());
        lemma_joined_concat(a, b.drop_last());
        assert(joined(a) + joined(b.drop_last()) + b.last().1 =~= joined(a) + (joined(
            b.drop_last(),
        ) + b.last().1));
    }
}

proof fn lemma_joined_one(x: RawLine)
    ensures
        joined(seq![x]) == x.1,
{
    assert(seq![x].drop_last() =~= Seq::<RawLine>::empty());
    assert(joined(Seq::<RawLine>::empty()) + x.1 =~= x.1);
}

/// Nothing visible is lost, repeated or reordered: for every byte stream, the
/// lines ended so far, joined, followed by the line still being built, are
/// exactly the stream with its escape sequences and line terminators stripped
/// by hand. (Each emitted event's text is its raw line decoded and trimmed.)
pub proof fn lemma_lines_keep_content(bytes: Seq<u8>)
    ensures
        joined(run(initial_state(), bytes).1) + run(initial_state(), bytes).0.line == strip_terminal(
            bytes,
        ).1,
        run(initial_state(), bytes).0.in_escape == strip_terminal(bytes).0,
        run(initial_state(), bytes).0.after_cr ==> !run(initial_state(), bytes).0.in_escape,
    decreases bytes.len(),
{
    if bytes.len() == 0 {
        assert(joined(Seq::<RawLine>::empty()) + Seq::<u8>::empty() =~= Seq::<u8>::empty());
    } else {
        let pre = bytes.drop_last();
        let b = bytes.last();
        lemma_lines_keep_content(pre);
        let (s, raw) = run(initial_state(), pre);
        let (next, more) = step(s, b);
        lemma_joined_concat(raw, more);
        let kept = strip_terminal(pre).1;
        if s.after_cr {
            let cleared = ScanState { after_cr: false, line: Seq::empty(), ..s };
            if b == LF {
                lemma_joined_one((LineKind::Log, s.line));
                assert(joined(raw) + s.line + next.line =~= kept);
            } else {
                let (n2, m2) = plain_step(cleared, b);
                lemma_joined_concat(seq![(LineKind::Activity, s.line)], m2);
                lemma_joined_one((LineKind::Activity, s.line));
                assert(m2 =~= seq![]);
                assert(joined(m2) =~= seq![]);
                if b == ESC || b == CR {
                    assert(joined(raw) + joined(more) + next.line =~= kept);
                } else {
                    assert(joined(raw) + joined(more) + next.line =~= kept.push(b));
                }
            }
        } else {
            if s.in_escape || b == ESC || b == CR {
                assert(more =~= seq![]);
                assert(joined(more) =~= seq![]);
                assert(joined(raw) + joined(more) + next.line =~= kept);
            } else if b == LF {
                lemma_joined_one((LineKind::Log, s.line));
                assert(joined(raw) + joined(more) + next.line =~= kept);
            } else {
                assert(more =~= seq![]);
                assert(joined(more) =~= seq![]);
                assert(joined(raw) + joined(more) + next.line =~= kept.push(b));
            }
        }
    }
}

/// Chunk boundaries do not matter: feeding `a` and then `b` reaches the same
/// state, and ends the same raw lines in the same order, as feeding `a + b`
/// at once.
pub proof fn lemma_chunks_compose(s: ScanState, a: Seq<u8>, b: Seq<u8>)
    ensures
        run(run(s, a).0, b).0 == run(s, a + b).0,
        run(s, a).1 + run(run(s, a).0, b).1 == run(s, a + b).1,
    decreases b.len(),
{
    if b.len() == 0 {
        assert(a + b =~= a);
        assert(run(s, a).1 + Seq::<RawLine>::empty() =~= run(s, a).1);
    } else {
        assert((a + b).drop_last() =~= a + b.drop_last());
        assert((a + b).last() == b.last());
        lemma_chunks_compose(s, a, b.drop_last());
        let mid = run(run(s, a).0, b.drop_last());
        let last = step(mid.0, b.last());
        assert(run(s, a).1 + (mid.1 + last.1) =~= run(s, a).1 + mid.1 + last.1);
    }
}

/// Incremental classifier of a byte stream.
pub struct LineClassifier {
    in_escape: bool,
    after_cr: bool,
    line: Vec<u8>,
}

impl View for LineClassifier {
    type V = ScanState;

    closed spec fn view(&self) -> ScanState {
        ScanState { in_escape: self.in_escape, after_cr: self.after_cr, line: self.line@ }
    }
}

impl LineClassifier {
    pub fn new() -> (r: LineClassifier)
        ensures
            r@ == initial_state(),
    {
        let r = LineClassifier { in_escape: false, after_cr: false, line: Vec::new() };
        assert(r@.line =~= Seq::<u8>::empty());
        r
    }

    /// Ends the current line as `kind`, appending its event to `out` unless
    /// its text is empty.
    fn end_line(&mut self, kind: LineKind, out: &mut Vec<LineEvent>)
        ensures
            final(self)@ == (ScanState { line: Seq::empty(), ..old(self)@ }),
            views(final(out)@) == views(old(out)@) + events_of(seq![(kind, old(self)@.line)]),
    {
        let ghost raw = seq![(kind, self.line@)];
        assert(raw.drop_last() =~= Seq::<RawLine>::empty());
        assert(events_of(raw.drop_last()) =~= seq![]);
        match trimmed_lossy(self.line.as_slice()) {
            Some(text) => {
                let ev = match kind {
                    LineKind::Log => LineEvent::Log(text),
                    LineKind::Activity => LineEvent::Activity(text),
                };
                out.push(ev);
                assert(views(out@) =~= views(old(out)@).push(ev@));
                assert(views(out@) =~= views(old(out)@) + events_of(raw));
            },
            None => {
                assert(views(out@) =~= views(old(out)@) + events_of(raw));
            },
        }
        self.line.clear();
        assert(self@ =~= (ScanState { line: Seq::empty(), ..old(self)@ }));
    }

    fn plain_byte(&mut self, b: u8, out: &mut Vec<LineEvent>)
        ensures
            final(self)@ == plain_step(old(self)@, b).0,
            views(final(out)@) == views(old(out)@) + events_of(plain_step(old(self)@, b).1),
    {
        if self.in_escape {
            if (0x41 <= b && b <= 0x5a) || (0x61 <= b && b <= 0x7a) || b == 0x7e {
                self.in_escape = false;
            }
        } else if b == ESC {
            self.in_escape = true;
        } else if b == CR {
            self.after_cr = true;
        } else if b == LF {
            self.end_line(LineKind::Log, out);
        } else {
            self.line.push(b);
        }
        assert(events_of(seq![]) =~= seq![]);
        assert(views(out@) =~= views(old(out)@) + events_of(plain_step(old(self)@, b).1));
        assert(self@ =~= plain_step(old(self)@, b).0);
    }

    fn push_byte(&mut self, b: u8, out: &mut Vec<LineEvent>)
        ensures
            final(self)@ == step(old(self)@, b).0,
            views(final(out)@) == views(old(out)@) + events_of(step(old(self)@, b).1),
    {
        if self.after_cr {
            self.after_cr = false;
            if b == LF {
                self.end_line(LineKind::Log, out);
            } else {
                self.end_line(LineKind::Activity, out);
                let ghost mid = views(out@);
                self.plain_byte(b, out);
                let ghost s0 = old(self)@;
                let ghost cleared = ScanState { after_cr: false, line: Seq::empty(), ..s0 };
                proof {
                    lemma_events_of_concat(seq![(LineKind::Activity, s0.line)], plain_step(cleared, b).1);
                }
            }
        } else {
            self.plain_byte(b, out);
        }
    }

    /// Feeds a chunk of output and returns the lines that it ended, in order.
    pub fn feed(&mut self, chunk: &[u8]) -> (events: Vec<LineEvent>)
        ensures
            final(self)@ == run(old(self)@, chunk@).0,
            views(events@) == events_of(run(old(self)@, chunk@).1),
    {
        let mut out: Vec<LineEvent> = Vec::new();
        let mut i: usize = 0;
        assert(chunk@.subrange(0, 0) =~= Seq::<u8>::empty());
        assert(views(out@) =~= seq![]);
        while i < chunk.len()
            invariant
                i <= chunk@.len(),
                self@ == run(old(self)@, chunk@.subrange(0, i as int)).0,
                views(out@) == events_of(run(old(self)@, chunk@.subrange(0, i as int)).1),
            decreases chunk@.len() - i,
        {
            let ghost before = chunk@.subrange(0, i as int);
            let ghost after = chunk@.subrange(0, i + 1);
            assert(after.drop_last() =~= before);
            let b = chunk[i];
            self.push_byte(b, &mut out);
            proof {
                lemma_events_of_concat(run(old(self)@, before).1, step(run(old(self)@, before).0, b).1);
            }
            i += 1;
        }
        assert(chunk@.subrange(0, i as int) =~= chunk@);
        out
    }

    /// Ends the stream: what is left of the current line becomes a last
    /// finalized line.
    pub fn finish(self) -> (events: Vec<LineEvent>)
        ensures
            views(events@) == events_of(seq![(LineKind::Log, self@.line)]),
    {
        let mut me = self;
        let mut out: Vec<LineEvent> = Vec::new();
        assert(views(out@) =~= seq![]);
        me.end_line(LineKind::Log, &mut out);
        out
    }
}

} // verus!
