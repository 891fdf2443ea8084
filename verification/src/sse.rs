//! Incremental SSE frame reconstruction.
//!
//! The parser receives raw byte chunks whose boundaries are arbitrary — a
//! chunk may end in the middle of a line, or in the middle of a multi-byte
//! UTF-8 sequence. Bytes are buffered until a full line (terminated by a
//! newline byte) is available; only then is the line interpreted. A line
//! starting with `data: ` carries a JSON event payload; every other line,
//! the `[DONE]` sentinel included, is discarded. A payload that does not
//! decode is a recoverable diagnostic, not an error. A partial line that
//! outgrows a fixed limit fails the stream.

use vstd::prelude::*;
use crate::events::{spec_event_of_json, StreamEvent, StreamEventV, event_of_json};
use crate::json::{ascii_view, spec_json, parse_json};

verus! {

/// Upper bound on one buffered partial line.
pub const MAX_LINE_BYTES: usize = 1_048_576;

/// What one complete line means.
pub enum SseLineOutcome {
    /// A `data: ` line whose payload decoded to an event.
    Event(StreamEvent),
    /// A `data: ` line whose payload did not decode: diagnosed, skipped.
    MalformedEvent,
    /// Any other line: blank lines, comments, the `[DONE]` sentinel.
    Ignored,
}

pub ghost enum SseLineV {
    Event(StreamEventV),
    MalformedEvent,
    Ignored,
}

impl View for SseLineOutcome {
    type V = SseLineV;

    open spec fn view(&self) -> SseLineV {
        match self {
            SseLineOutcome::Event(e) => SseLineV::Event(e@),
            SseLineOutcome::MalformedEvent => SseLineV::MalformedEvent,
            SseLineOutcome::Ignored => SseLineV::Ignored,
        }
    }
}

/// Meaning of one complete line (without its terminating newline).
pub open spec fn spec_classify_line(line: Seq<u8>) -> SseLineV {
    if line.len() >= 6 && line.subrange(0, 6) == ascii_view("data: ") {
        let payload = line.skip(6);
        if payload == ascii_view("[DONE]") {
            SseLineV::Ignored
        } else {
            match spec_json(payload) {
                Some(j) => match spec_event_of_json(j) {
                    Some(e) => SseLineV::Event(e),
                    None => SseLineV::MalformedEvent,
                },
                None => SseLineV::MalformedEvent,
            }
        }
    } else {
        SseLineV::Ignored
    }
}

/// Copy of the bytes from `from` to the end.
fn tail_bytes(line: &Vec<u8>, from: usize) -> (r: Vec<u8>)
    requires
        from <= line@.len(),
    ensures
        r@ == line@.skip(from as int),
{
    let mut out: Vec<u8> = Vec::new();
    let mut i = from;
    while i < line.len()
        invariant
            from <= i <= line@.len(),
            out@ == line@.subrange(from as int, i as int),
        decreases line@.len() - i,
    {
        out.push(line[i]);
        proof {
            assert(line@.subrange(from as int, i as int).push(line@[i as int]) =~= line@.subrange(
                from as int,
                i + 1,
            ));
        }
        i = i + 1;
    }
    proof {
        assert(line@.subrange(from as int, line@.len() as int) =~= line@.skip(from as int));
    }
    out
}

/// Classify one complete line.
pub fn classify_sse_line(line: &Vec<u8>) -> (r: SseLineOutcome)
    ensures
        r@ == spec_classify_line(line@),
{
    broadcast use vstd::string::is_ascii_spec_bytes;

    proof {
        reveal_strlit("data: ");
        reveal_strlit("[DONE]");
    }
    let prefix = "data: ".as_bytes();
    proof {
        assert(vstd::string::is_ascii("data: "));
        assert(prefix@ =~= ascii_view("data: "));
    }
    if line.len() < 6 {
        return SseLineOutcome::Ignored;
    }
    let mut i: usize = 0;
    while i < 6
        invariant
            0 <= i <= 6,
            line@.len() >= 6,
            prefix@ == ascii_view("data: "),
            prefix@.len() == 6,
            forall|k: int| 0 <= k < i ==> line@[k] == prefix@[k],
        decreases 6 - i,
    {
        if line[i] != prefix[i] {
            proof {
                assert(line@.subrange(0, 6)[i as int] != ascii_view("data: ")[i as int]);
            }
            return SseLineOutcome::Ignored;
        }
        i = i + 1;
    }
    proof {
        assert(line@.subrange(0, 6) =~= ascii_view("data: "));
    }
    let payload = tail_bytes(line, 6);
    let done = "[DONE]".as_bytes();
    proof {
        assert(vstd::string::is_ascii("[DONE]"));
        assert(done@ =~= ascii_view("[DONE]"));
    }
    if crate::json::bytes_eq_slice(&payload, done) {
        return SseLineOutcome::Ignored;
    }
    match parse_json(&payload) {
        Some(j) => match event_of_json(&j) {
            Some(e) => SseLineOutcome::Event(e),
            None => SseLineOutcome::MalformedEvent,
        },
        None => SseLineOutcome::MalformedEvent,
    }
}

/// Parse one complete SSE line already held as text: the event of a
/// well-formed `data: ` line, and nothing for every other line — the
/// `[DONE]` sentinel, non-data lines, and undecodable payloads alike.
pub fn parse_sse_line(line: &str) -> (r: Option<StreamEvent>)
    ensures
        match r {
            Some(e) => spec_classify_line(
                vstd::string::StringSliceAdditionalSpecFns::spec_bytes(line),
            ) == SseLineV::Event(e@),
            None => !(spec_classify_line(
                vstd::string::StringSliceAdditionalSpecFns::spec_bytes(line),
            ) is Event),
        },
{
    let bytes = line.as_bytes_vec();
    match classify_sse_line(&bytes) {
        SseLineOutcome::Event(e) => Some(e),
        _ => None,
    }
}

/// Items a complete line contributes to the output: ignored lines
/// contribute nothing.
pub open spec fn spec_emitted(line: SseLineV) -> Seq<SseLineV> {
    if line is Ignored {
        Seq::empty()
    } else {
        seq![line]
    }
}

/// Result of feeding bytes through the line buffer.
pub ghost struct FeedV {
    /// Outcomes of the complete lines, in order.
    pub items: Seq<SseLineV>,
    /// The partial line left in the buffer.
    pub buf: Seq<u8>,
    /// The buffered partial line outgrew the limit; feeding stopped there.
    pub overflow: bool,
}

/// Feeding `input` after the partial line `buf`: each newline completes a
/// line and classifies it; any other byte is buffered, and a byte that
/// would grow the buffer past the limit stops the stream.
pub open spec fn spec_feed(buf: Seq<u8>, input: Seq<u8>) -> FeedV
    decreases input.len(),
{
    if input.len() == 0 {
        FeedV { items: Seq::empty(), buf, overflow: false }
    } else {
        let b = input[0];
        if b == 0x0a {
            let first = spec_classify_line(buf);
            let rest = spec_feed(Seq::empty(), input.drop_first());
            FeedV {
                items: spec_emitted(first) + rest.items,
                buf: rest.buf,
                overflow: rest.overflow,
            }
        } else if buf.len() >= MAX_LINE_BYTES {
            FeedV { items: Seq::empty(), buf, overflow: true }
        } else {
            spec_feed(buf.push(b), input.drop_first())
        }
    }
}

/// The parser failed: a buffered partial line outgrew the limit.
#[derive(Clone, Copy, Debug, PartialEq, Eq, Structural)]
pub enum SseError {
    FrameTooLarge,
}

/// The incremental parser: a byte-level line buffer.
pub struct SseParser {
    buf: Vec<u8>,
    failed: bool,
}

pub ghost struct SseParserV {
    pub buf: Seq<u8>,
    pub failed: bool,
}

impl View for SseParser {
    type V = SseParserV;

    closed spec fn view(&self) -> SseParserV {
        SseParserV { buf: self.buf@, failed: self.failed }
    }
}

impl SseParser {
    /// The buffer never outgrows the limit.
    pub open spec fn wf(&self) -> bool {
        self@.buf.len() <= MAX_LINE_BYTES
    }

    pub fn new() -> (r: Self)
        ensures
            r@.buf == Seq::<u8>::empty(),
            !r@.failed,
            r.wf(),
    {
        SseParser { buf: Vec::new(), failed: false }
    }

    /// Feed one chunk of bytes; returns the outcomes of the lines the chunk
    /// completed, or the error once a partial line outgrows the limit.
    /// Feeding a failed parser fails again and changes nothing.
    pub fn push_chunk(&mut self, chunk: &Vec<u8>) -> (r: Result<Vec<SseLineOutcome>, SseError>)
        requires
            old(self).wf(),
        ensures
            final(self).wf(),
            old(self)@.failed ==> r is Err && final(self)@ == old(self)@,
            !old(self)@.failed ==> {
                let f = spec_feed(old(self)@.buf, chunk@);
                if f.overflow {
                    r is Err && final(self)@.failed
                } else {
                    r matches Ok(out) && out@.map_values(|o: SseLineOutcome| o@) == f.items
                        && final(self)@.buf == f.buf && !final(self)@.failed
                }
            },
    {
        if self.failed {
            return Err(SseError::FrameTooLarge);
        }
        let mut out: Vec<SseLineOutcome> = Vec::new();
        let mut i: usize = 0;
        let ghost buf0 = self@.buf;
        proof {
            assert(chunk@.skip(0) =~= chunk@);
            assert(out@.map_values(|o: SseLineOutcome| o@) =~= Seq::<SseLineV>::empty());
            let f = spec_feed(self@.buf, chunk@);
            assert(Seq::<SseLineV>::empty() + f.items =~= f.items);
        }
        while i < chunk.len()
            invariant
                0 <= i <= chunk@.len(),
                !old(self)@.failed,
                buf0 == old(self)@.buf,
                !self@.failed,
                self.wf(),
                ({
                    let f0 = spec_feed(buf0, chunk@);
                    let f = spec_feed(self@.buf, chunk@.skip(i as int));
                    f0.items == out@.map_values(|o: SseLineOutcome| o@) + f.items && f0.buf
                        == f.buf && f0.overflow == f.overflow
                }),
            decreases chunk@.len() - i,
        {
            let b = chunk[i];
            proof {
                assert(chunk@.skip(i as int)[0] == chunk@[i as int]);
                assert(chunk@.skip(i as int).drop_first() =~= chunk@.skip(i + 1));
            }
            if b == 0x0a {
                let outcome = classify_sse_line(&self.buf);
                let ghost gout = out@;
                let ghost goutc = outcome@;
                match outcome {
                    SseLineOutcome::Ignored => {
                        proof {
                            assert(spec_emitted(goutc) =~= Seq::<SseLineV>::empty());
                            let rest = spec_feed(Seq::empty(), chunk@.skip(i + 1));
                            assert(spec_emitted(goutc) + rest.items =~= rest.items);
                        }
                    },
                    outcome => {
                        out.push(outcome);
                        proof {
                            assert(out@.map_values(|o: SseLineOutcome| o@) =~= gout.map_values(
                                |o: SseLineOutcome| o@,
                            ).push(goutc));
                            let rest = spec_feed(Seq::empty(), chunk@.skip(i + 1));
                            assert(gout.map_values(|o: SseLineOutcome| o@) + (spec_emitted(goutc)
                                + rest.items) =~= out@.map_values(|o: SseLineOutcome| o@)
                                + rest.items);
                        }
                    },
                }
                self.buf.clear();
            } else {
                if self.buf.len() >= MAX_LINE_BYTES {
                    self.failed = true;
                    return Err(SseError::FrameTooLarge);
                }
                self.buf.push(b);
            }
            i = i + 1;
        }
        proof {
            assert(chunk@.skip(chunk@.len() as int) =~= Seq::<u8>::empty());
            let f0 = spec_feed(buf0, chunk@);
            assert(out@.map_values(|o: SseLineOutcome| o@) + Seq::<SseLineV>::empty()
                =~= out@.map_values(|o: SseLineOutcome| o@));
        }
        Ok(out)
    }

    /// Length of the buffered partial line.
    pub fn buffered_len(&self) -> (r: usize)
        ensures
            r == self@.buf.len(),
    {
        self.buf.len()
    }

    /// Whether the parser has failed.
    pub fn has_failed(&self) -> (r: bool)
        ensures
            r == self@.failed,
    {
        self.failed
    }
}

/// Feeding one byte sequence equals feeding it in two pieces.
pub proof fn lemma_feed_append(buf: Seq<u8>, a: Seq<u8>, b: Seq<u8>)
    ensures
        ({
            let fa = spec_feed(buf, a);
            let fab = spec_feed(buf, a + b);
            if fa.overflow {
                fab == fa
            } else {
                let fb = spec_feed(fa.buf, b);
                fab.items == fa.items + fb.items && fab.buf == fb.buf && fab.overflow
                    == fb.overflow
            }
        }),
    decreases a.len(),
{
    let fa = spec_feed(buf, a);
    let fab = spec_feed(buf, a + b);
    if a.len() == 0 {
        assert(a + b =~= b);
        assert(fa.items + spec_feed(buf, b).items =~= spec_feed(buf, b).items);
    } else {
        assert((a + b)[0] == a[0]);
        assert((a + b).len() > 0);
        assert((a + b).drop_first() =~= a.drop_first() + b);
        let c = a[0];
        if c == 0x0a {
            lemma_feed_append(Seq::empty(), a.drop_first(), b);
            let first = spec_classify_line(buf);
            let fa2 = spec_feed(Seq::empty(), a.drop_first());
            if fa2.overflow {
            } else {
                let fb = spec_feed(fa2.buf, b);
                assert(spec_emitted(first) + (fa2.items + fb.items) =~= (spec_emitted(first)
                    + fa2.items) + fb.items);
            }
        } else if buf.len() >= MAX_LINE_BYTES {
        } else {
            lemma_feed_append(buf.push(c), a.drop_first(), b);
        }
    }
}

/// Feeding a sequence of chunks one after another.
pub open spec fn spec_feed_all(buf: Seq<u8>, chunks: Seq<Seq<u8>>) -> FeedV
    decreases chunks.len(),
{
    if chunks.len() == 0 {
        FeedV { items: Seq::empty(), buf, overflow: false }
    } else {
        let f1 = spec_feed(buf, chunks[0]);
        if f1.overflow {
            f1
        } else {
            let rest = spec_feed_all(f1.buf, chunks.drop_first());
            FeedV { items: f1.items + rest.items, buf: rest.buf, overflow: rest.overflow }
        }
    }
}

/// Chunk-boundary invariance: however a byte stream is split into chunks —
/// mid-line, mid-codepoint, one byte at a time — feeding the chunks in
/// order yields exactly the outcomes, the leftover partial line and the
/// overflow verdict of feeding the unsplit stream.
pub proof fn lemma_chunk_boundary_invariance(buf: Seq<u8>, chunks: Seq<Seq<u8>>)
    ensures
        spec_feed_all(buf, chunks) == spec_feed(buf, chunks.flatten()),
    decreases chunks.len(),
{
    if chunks.len() == 0 {
        assert(chunks.flatten() =~= Seq::<u8>::empty());
        assert(spec_feed_all(buf, chunks).items =~= spec_feed(buf, chunks.flatten()).items);
    } else {
        assert(chunks.flatten() == chunks[0] + chunks.drop_first().flatten());
        lemma_feed_append(buf, chunks[0], chunks.drop_first().flatten());
        let f1 = spec_feed(buf, chunks[0]);
        if f1.overflow {
        } else {
            lemma_chunk_boundary_invariance(f1.buf, chunks.drop_first());
        }
    }
}

/// Oversized-frame rejection: input holding no newline overflows exactly
/// when it grows the buffered partial line past the limit, and feeding
/// never grows the buffer past the limit.
pub proof fn lemma_no_newline_overflow(buf: Seq<u8>, input: Seq<u8>)
    requires
        buf.len() <= MAX_LINE_BYTES,
        forall|i: int| 0 <= i < input.len() ==> input[i] != 0x0a,
    ensures
        spec_feed(buf, input).overflow <==> buf.len() + input.len() > MAX_LINE_BYTES,
        !spec_feed(buf, input).overflow ==> spec_feed(buf, input).buf.len() == buf.len()
            + input.len(),
    decreases input.len(),
{
    if input.len() > 0 {
        assert(input[0] != 0x0a);
        if buf.len() >= MAX_LINE_BYTES {
        } else {
            assert(forall|i: int|
                0 <= i < input.drop_first().len() ==> input.drop_first()[i] == input[i + 1]);
            lemma_no_newline_overflow(buf.push(input[0]), input.drop_first());
        }
    }
}

} // verus!
