//! Lines out of a stream of bytes that arrives in chunks, with a bound on their length.

use vstd::prelude::*;

use crate::text;
use crate::text::{append_bytes, find_byte};

verus! {

/// The byte that ends a line.
pub const LINE_BREAK: u8 = 10;

/// What has been made of the input so far, by the bytes that matter.
pub enum LineState {
    /// The line is not complete; these bytes of it have arrived.
    Open(Seq<u8>),
    /// The line is complete; these are its bytes, without the line break.
    Complete(Seq<u8>),
    /// The input ended inside a line; these bytes of it had arrived.
    Unfinished(Seq<u8>),
    /// The input ended between lines.
    Ended,
    /// The line has more bytes than the limit.
    TooLong,
}

/// What one more chunk makes of a line of which `buf` has arrived. An empty chunk is the end of the
/// input. A line is too long as soon as more of its bytes than the limit are there; where the limit is
/// not `exact`, the chunk that holds the line break is taken whatever its length.
pub open spec fn with_chunk(buf: Seq<u8>, chunk: Seq<u8>, limit: nat, exact: bool) -> LineState {
    let n = text::first_at(chunk, LINE_BREAK);
    if chunk.len() == 0 {
        if buf.len() == 0 {
            LineState::Ended
        } else {
            LineState::Unfinished(buf)
        }
    } else if buf.len() + n > limit && (exact || n == chunk.len()) {
        LineState::TooLong
    } else if n < chunk.len() {
        LineState::Complete(buf + chunk.take(n))
    } else {
        LineState::Open(buf + chunk)
    }
}

/// What a series of chunks makes of a new line.
pub open spec fn with_chunks(chunks: Seq<Seq<u8>>, limit: nat, exact: bool) -> LineState
    decreases chunks.len(),
{
    if chunks.len() == 0 {
        LineState::Open(Seq::empty())
    } else {
        match with_chunks(chunks.drop_last(), limit, exact) {
            LineState::Open(buf) => with_chunk(buf, chunks.last(), limit, exact),
            end => end,
        }
    }
}

/// What reading a line has come to.
pub enum LineRead {
    /// More input is needed.
    More,
    /// The line, without the line break.
    Line(Vec<u8>),
    /// The input ended inside this line.
    Rest(Vec<u8>),
    /// The input ended between lines.
    End,
    /// The line is too long.
    TooLong,
}

/// A line under way.
pub struct LineBuffer {
    pub buf: Vec<u8>,
    pub limit: usize,
    /// Whether the limit holds for the chunk with the line break too.
    pub exact: bool,
}

/// How many bytes of a chunk belong to a line: up to and with the line break, or all.
pub open spec fn bytes_used(chunk: Seq<u8>) -> int {
    let n = text::first_at(chunk, LINE_BREAK);
    if n < chunk.len() {
        n + 1
    } else {
        chunk.len() as int
    }
}

impl LineBuffer {
    /// Starts a new line.
    pub fn new(limit: usize, exact: bool) -> (b: LineBuffer)
        ensures
            b.buf@ == Seq::<u8>::empty(),
            b.limit == limit,
            b.exact == exact,
    {
        LineBuffer { buf: Vec::new(), limit, exact }
    }

    /// What one more chunk makes of the line.
    pub open spec fn after(self, chunk: Seq<u8>) -> LineState {
        with_chunk(self.buf@, chunk, self.limit as nat, self.exact)
    }

    /// Takes in the next chunk of the input, an empty one at its end. Gives the number of bytes that
    /// were used, and what reading the line has come to. After anything but `More` a new line
    /// begins; what is left of a line that is too long, its line break included, is not used and can
    /// be dropped with `skip_line`.
    pub fn feed(&mut self, chunk: &[u8]) -> (r: (usize, LineRead))
        ensures
            final(self).limit == old(self).limit,
            final(self).exact == old(self).exact,
            r.0 == (if r.1 is TooLong {
                text::first_at(chunk@, LINE_BREAK)
            } else {
                bytes_used(chunk@)
            }),
            match r.1 {
                LineRead::More => old(self).after(chunk@) == LineState::Open(final(self).buf@),
                LineRead::Line(line) => old(self).after(chunk@) == LineState::Complete(line@),
                LineRead::Rest(line) => old(self).after(chunk@) == LineState::Unfinished(line@),
                LineRead::End => old(self).after(chunk@) is Ended,
                LineRead::TooLong => old(self).after(chunk@) is TooLong,
            },
            r.1 !is More ==> final(self).buf@ == Seq::<u8>::empty(),
    {
        proof {
            text::lemma_first_at(chunk@, LINE_BREAK);
        }
        if chunk.len() == 0 {
            if self.buf.len() == 0 {
                assert(self.buf@ =~= Seq::<u8>::empty());
                return (0, LineRead::End);
            }
            let line: Vec<u8> = take_bytes(&mut self.buf);
            return (0, LineRead::Rest(line));
        }
        let n: usize = find_byte(chunk, LINE_BREAK);
        if n < chunk.len() {
            let head: &[u8] = &chunk[0..n];
            assert(head@ =~= chunk@.take(n as int));
            append_bytes(&mut self.buf, head);
            if self.exact && self.buf.len() > self.limit {
                self.buf = Vec::new();
                return (n, LineRead::TooLong);
            }
            let line: Vec<u8> = take_bytes(&mut self.buf);
            return (n + 1, LineRead::Line(line));
        }
        append_bytes(&mut self.buf, chunk);
        if self.buf.len() > self.limit {
            self.buf = Vec::new();
            return (chunk.len(), LineRead::TooLong);
        }
        (chunk.len(), LineRead::More)
    }
}

/// Takes the bytes out of `v` and leaves it empty.
fn take_bytes(v: &mut Vec<u8>) -> (r: Vec<u8>)
    ensures
        r@ == old(v)@,
        final(v)@ == Seq::<u8>::empty(),
{
    let mut r: Vec<u8> = Vec::new();
    std::mem::swap(&mut r, v);
    r
}

/// Skips what is left of a line that was too long: how many bytes of a chunk are dropped, and
/// whether the line has ended. An empty chunk is the end of the input.
pub fn skip_line(chunk: &[u8]) -> (r: (usize, bool))
    ensures
        r.0 == bytes_used(chunk@),
        r.1 == (chunk@.len() == 0 || chunk@.contains(LINE_BREAK)),
{
    proof {
        text::lemma_first_at(chunk@, LINE_BREAK);
    }
    let n: usize = find_byte(chunk, LINE_BREAK);
    if n < chunk.len() {
        (n + 1, true)
    } else {
        (n, chunk.len() == 0)
    }
}

// ---------------------------------------------------------------------------
// Lines that are dropped
// ---------------------------------------------------------------------------

/// Reads lines one after the other under an exact limit, and drops each line that is too long as a
/// whole.
pub struct LineReader {
    pub line: LineBuffer,
    /// Whether what arrives belongs to a line that was too long.
    pub skipping: bool,
}

/// What one more chunk comes to for a `LineReader`.
pub struct ReaderStep {
    /// How many bytes of the chunk are used.
    pub used: int,
    /// The bytes of the line under way.
    pub buf: Seq<u8>,
    /// Whether what is to come belongs to a line that was too long.
    pub skipping: bool,
    /// What reading the line has come to.
    pub state: LineState,
}

/// What one more chunk comes to, when `buf` of a line has arrived or a line is being dropped. That a
/// line is too long is told when it has been dropped.
pub open spec fn reader_step(buf: Seq<u8>, skipping: bool, chunk: Seq<u8>, limit: nat) -> ReaderStep {
    let none = Seq::<u8>::empty();
    if skipping {
        let ended = chunk.len() == 0 || chunk.contains(LINE_BREAK);
        ReaderStep {
            used: bytes_used(chunk),
            buf: none,
            skipping: !ended,
            state: if ended {
                LineState::TooLong
            } else {
                LineState::Open(none)
            },
        }
    } else {
        match with_chunk(buf, chunk, limit, true) {
            LineState::TooLong => ReaderStep {
                used: text::first_at(chunk, LINE_BREAK),
                buf: none,
                skipping: true,
                state: LineState::Open(none),
            },
            LineState::Open(more) => ReaderStep {
                used: bytes_used(chunk),
                buf: more,
                skipping: false,
                state: LineState::Open(more),
            },
            end => ReaderStep { used: bytes_used(chunk), buf: none, skipping: false, state: end },
        }
    }
}

impl LineReader {
    /// Whether the limit is exact, what is kept of a line keeps to it, and nothing is kept of a line
    /// that is being dropped.
    pub open spec fn wf(self) -> bool {
        &&& self.line.exact
        &&& self.line.buf@.len() <= self.line.limit
        &&& self.skipping ==> self.line.buf@.len() == 0
    }

    /// Starts at the beginning of a line.
    pub fn new(limit: usize) -> (r: LineReader)
        ensures
            r.wf(),
            r.line.buf@ == Seq::<u8>::empty(),
            r.line.limit == limit,
            !r.skipping,
    {
        LineReader { line: LineBuffer::new(limit, true), skipping: false }
    }

    /// Takes in the next chunk of the input, an empty one at its end. Gives the number of bytes that
    /// were used, and what reading the line has come to. After anything but `More` a new line begins
    /// behind the bytes that were used.
    pub fn feed(&mut self, chunk: &[u8]) -> (r: (usize, LineRead))
        requires
            old(self).wf(),
        ensures
            final(self).wf(),
            final(self).line.limit == old(self).line.limit,
            ({
                let step = reader_step(
                    old(self).line.buf@,
                    old(self).skipping,
                    chunk@,
                    old(self).line.limit as nat,
                );
                &&& r.0 == step.used
                &&& final(self).line.buf@ == step.buf
                &&& final(self).skipping == step.skipping
                &&& match r.1 {
                    LineRead::More => step.state is Open,
                    LineRead::Line(line) => step.state == LineState::Complete(line@),
                    LineRead::Rest(line) => step.state == LineState::Unfinished(line@),
                    LineRead::End => step.state is Ended,
                    LineRead::TooLong => step.state is TooLong,
                }
            }),
            r.0 <= chunk@.len(),
            chunk@.len() > 0 ==> r.0 > 0,
            chunk@.len() == 0 ==> r.1 !is More,
    {
        proof {
            text::lemma_first_at(chunk@, LINE_BREAK);
        }
        if self.skipping {
            let (used, ended) = skip_line(chunk);
            self.skipping = !ended;
            assert(self.line.buf@ =~= Seq::<u8>::empty());
            if ended {
                (used, LineRead::TooLong)
            } else {
                (used, LineRead::More)
            }
        } else {
            let (used, read) = self.line.feed(chunk);
            match read {
                LineRead::TooLong => {
                    self.skipping = true;
                    (used, LineRead::More)
                },
                other => (used, other),
            }
        }
    }
}

// ---------------------------------------------------------------------------
// Laws
// ---------------------------------------------------------------------------

/// What the beginning of the input makes of a new line under an exact limit: a line that keeps to the
/// limit is everything up to the first line break.
pub open spec fn line_state(input: Seq<u8>, limit: nat) -> LineState {
    let n = text::first_at(input, LINE_BREAK);
    if n > limit {
        LineState::TooLong
    } else if n < input.len() {
        LineState::Complete(input.take(n))
    } else {
        LineState::Open(input)
    }
}

/// Where a line break first stands in two pieces of input.
proof fn lemma_first_break(a: Seq<u8>, b: Seq<u8>)
    ensures
        text::first_at(a + b, LINE_BREAK) == (if text::first_at(a, LINE_BREAK) < a.len() {
            text::first_at(a, LINE_BREAK)
        } else {
            a.len() + text::first_at(b, LINE_BREAK)
        }),
{
    let whole = a + b;
    let p = text::first_at(whole, LINE_BREAK);
    let n = text::first_at(a, LINE_BREAK);
    let m = text::first_at(b, LINE_BREAK);
    text::lemma_first_at(a, LINE_BREAK);
    text::lemma_first_at(b, LINE_BREAK);
    text::lemma_first_at(whole, LINE_BREAK);
    if n < a.len() {
        assert(whole[n] == LINE_BREAK);
        if p < n {
            assert(a[p] == whole[p]);
        }
    } else {
        if p < a.len() {
            assert(a[p] == whole[p]);
        } else if p < a.len() + m {
            assert(b[p - a.len()] == whole[p]);
        }
        if m < b.len() {
            assert(whole[a.len() + m] == LINE_BREAK);
        }
    }
}

/// Under an exact limit, what becomes of a line does not depend on how the input is cut into chunks.
pub proof fn law_line_ignores_chunks(chunks: Seq<Seq<u8>>, limit: nat)
    requires
        forall|i: int| 0 <= i < chunks.len() ==> (#[trigger] chunks[i]).len() > 0,
    ensures
        with_chunks(chunks, limit, true) == line_state(chunks.flatten(), limit),
    decreases chunks.len(),
{
    let whole = chunks.flatten();
    if chunks.len() == 0 {
        assert(whole =~= Seq::<u8>::empty());
        text::lemma_first_at(whole, LINE_BREAK);
    } else {
        let front = chunks.drop_last();
        let last = chunks.last();
        let before = front.flatten();
        front.lemma_flatten_push(last);
        assert(front.push(last) =~= chunks);
        assert(whole =~= before + last);
        assert forall|i: int| 0 <= i < front.len() implies (#[trigger] front[i]).len() > 0 by {
            assert(front[i] == chunks[i]);
        }
        assert(chunks[chunks.len() - 1].len() > 0);
        law_line_ignores_chunks(front, limit);
        lemma_first_break(before, last);
        text::lemma_first_at(before, LINE_BREAK);
        text::lemma_first_at(last, LINE_BREAK);
        let n = text::first_at(before, LINE_BREAK);
        let m = text::first_at(last, LINE_BREAK);
        if n < before.len() {
            assert(whole.take(n) =~= before.take(n));
        } else if m < last.len() {
            assert(whole.take(before.len() + m) =~= before + last.take(m));
        }
    }
}

/// Under an exact limit, a line whose line break stands behind the limit is refused, as is input
/// behind the limit without a line break, however the input is cut into chunks; a line whose line
/// break stands at or before the limit is taken.
pub proof fn law_long_line_is_refused(chunks: Seq<Seq<u8>>, limit: nat)
    requires
        forall|i: int| 0 <= i < chunks.len() ==> (#[trigger] chunks[i]).len() > 0,
    ensures
        ({
            let n = text::first_at(chunks.flatten(), LINE_BREAK);
            let state = with_chunks(chunks, limit, true);
            &&& state is TooLong <==> n > limit
            &&& state is Complete <==> n <= limit && n < chunks.flatten().len()
        }),
{
    law_line_ignores_chunks(chunks, limit);
}

/// Where the limit is not exact, it makes a difference only to a line whose line break stands behind
/// the limit: such a line is refused, or it is everything up to the line break.
pub proof fn law_loose_limit(chunks: Seq<Seq<u8>>, limit: nat)
    requires
        forall|i: int| 0 <= i < chunks.len() ==> (#[trigger] chunks[i]).len() > 0,
    ensures
        ({
            let input = chunks.flatten();
            let n = text::first_at(input, LINE_BREAK);
            let state = with_chunks(chunks, limit, false);
            &&& n <= limit || n == input.len() ==> state == line_state(input, limit)
            &&& limit < n < input.len() ==> state is TooLong || state == LineState::Complete(
                input.take(n),
            )
        }),
    decreases chunks.len(),
{
    let whole = chunks.flatten();
    if chunks.len() == 0 {
        assert(whole =~= Seq::<u8>::empty());
        text::lemma_first_at(whole, LINE_BREAK);
    } else {
        let front = chunks.drop_last();
        let last = chunks.last();
        let before = front.flatten();
        front.lemma_flatten_push(last);
        assert(front.push(last) =~= chunks);
        assert(whole =~= before + last);
        assert forall|i: int| 0 <= i < front.len() implies (#[trigger] front[i]).len() > 0 by {
            assert(front[i] == chunks[i]);
        }
        assert(chunks[chunks.len() - 1].len() > 0);
        law_loose_limit(front, limit);
        lemma_first_break(before, last);
        text::lemma_first_at(before, LINE_BREAK);
        text::lemma_first_at(last, LINE_BREAK);
        let n = text::first_at(before, LINE_BREAK);
        let m = text::first_at(last, LINE_BREAK);
        if n < before.len() {
            assert(whole.take(n) =~= before.take(n));
        } else if m < last.len() {
            assert(whole.take(before.len() + m) =~= before + last.take(m));
        }
    }
}

/// Whatever is kept or handed out of a line never exceeds the limit; where the limit is not exact, a
/// line that is handed out exceeds it by less than the longest chunk.
pub proof fn law_lines_are_bounded(chunks: Seq<Seq<u8>>, limit: nat, exact: bool, longest: nat)
    requires
        forall|i: int| 0 <= i < chunks.len() ==> (#[trigger] chunks[i]).len() <= longest,
    ensures
        match with_chunks(chunks, limit, exact) {
            LineState::Open(buf) => buf.len() <= limit,
            LineState::Complete(line) => if exact {
                line.len() <= limit
            } else {
                line.len() < limit + longest
            },
            LineState::Unfinished(line) => line.len() <= limit,
            _ => true,
        },
    decreases chunks.len(),
{
    if chunks.len() > 0 {
        let front = chunks.drop_last();
        assert forall|i: int| 0 <= i < front.len() implies (#[trigger] front[i]).len()
            <= longest by {
            assert(front[i] == chunks[i]);
        }
        assert(chunks[chunks.len() - 1].len() <= longest);
        law_lines_are_bounded(front, limit, exact, longest);
        text::lemma_first_at(chunks.last(), LINE_BREAK);
    }
}

/// Whether the input can be offered to a `LineReader` in chunks of these sizes: each chunk is the
/// beginning of what has not been used yet, and only at the end of the input it is empty.
pub open spec fn can_offer(
    buf: Seq<u8>,
    skipping: bool,
    input: Seq<u8>,
    sizes: Seq<int>,
    limit: nat,
) -> bool
    decreases sizes.len(),
{
    sizes.len() > 0 ==> {
        let step = reader_step(buf, skipping, input.take(sizes[0]), limit);
        &&& 0 <= sizes[0] <= input.len()
        &&& sizes[0] == 0 ==> input.len() == 0
        &&& step.state is Open ==> can_offer(
            step.buf,
            step.skipping,
            input.skip(step.used),
            sizes.skip(1),
            limit,
        )
    }
}

/// What offering the input in chunks of these sizes comes to, and what is left of the input then.
pub open spec fn read_in(
    buf: Seq<u8>,
    skipping: bool,
    input: Seq<u8>,
    sizes: Seq<int>,
    limit: nat,
) -> (LineState, Seq<u8>)
    decreases sizes.len(),
{
    if sizes.len() == 0 {
        (LineState::Open(buf), input)
    } else {
        let step = reader_step(buf, skipping, input.take(sizes[0]), limit);
        let left = input.skip(step.used);
        if step.state is Open {
            read_in(step.buf, step.skipping, left, sizes.skip(1), limit)
        } else {
            (step.state, left)
        }
    }
}

/// What follows the first line break.
pub open spec fn after_line(input: Seq<u8>) -> Seq<u8> {
    input.skip(bytes_used(input))
}

/// The first line of the whole input, or that it is too long, or that there is none; and what follows
/// it.
pub open spec fn first_line(input: Seq<u8>, limit: nat) -> (LineState, Seq<u8>) {
    let n = text::first_at(input, LINE_BREAK);
    (
        if n > limit {
            LineState::TooLong
        } else if n < input.len() {
            LineState::Complete(input.take(n))
        } else if input.len() > 0 {
            LineState::Unfinished(input)
        } else {
            LineState::Ended
        },
        after_line(input),
    )
}

/// What reading comes to from any point on, by the rest of the input.
spec fn expected(buf: Seq<u8>, skipping: bool, input: Seq<u8>, limit: nat) -> (LineState, Seq<u8>) {
    if skipping {
        (LineState::TooLong, after_line(input))
    } else {
        first_line(buf + input, limit)
    }
}

/// Bytes without a line break in front do not change what follows the first line break.
proof fn lemma_after_line(head: Seq<u8>, input: Seq<u8>)
    requires
        !head.contains(LINE_BREAK),
    ensures
        after_line(head + input) == after_line(input),
        text::first_at(head + input, LINE_BREAK) == head.len() + text::first_at(input, LINE_BREAK),
{
    text::lemma_first_at(head, LINE_BREAK);
    text::lemma_first_at(input, LINE_BREAK);
    lemma_first_break(head, input);
    assert(after_line(head + input) =~= after_line(input));
}

/// Where the first line break of a piece of the input stands, it stands in the input.
proof fn lemma_break_in_front(chunk: Seq<u8>, rest: Seq<u8>)
    requires
        chunk.contains(LINE_BREAK),
    ensures
        text::first_at(chunk + rest, LINE_BREAK) == text::first_at(chunk, LINE_BREAK),
        after_line(chunk + rest) == (chunk + rest).skip(bytes_used(chunk)),
{
    text::lemma_first_at(chunk, LINE_BREAK);
    lemma_first_break(chunk, rest);
}

/// A chunk for a line that is being dropped.
proof fn lemma_skipping_step(buf: Seq<u8>, chunk: Seq<u8>, rest: Seq<u8>, limit: nat)
    requires
        chunk.len() == 0 ==> rest.len() == 0,
    ensures
        ({
            let step = reader_step(buf, true, chunk, limit);
            let left = (chunk + rest).skip(step.used);
            let all = expected(buf, true, chunk + rest, limit);
            &&& step.state is Open ==> 0 < step.used && expected(
                step.buf,
                step.skipping,
                left,
                limit,
            ) == all
            &&& step.state !is Open ==> (step.state, left) == all
        }),
{
    text::lemma_first_at(chunk, LINE_BREAK);
    if chunk.contains(LINE_BREAK) {
        lemma_break_in_front(chunk, rest);
    } else {
        lemma_after_line(chunk, rest);
        assert((chunk + rest).skip(chunk.len() as int) =~= rest);
        if chunk.len() == 0 {
            assert(after_line(rest) =~= rest);
        }
    }
}

/// A chunk for a line under way.
proof fn lemma_reading_step(buf: Seq<u8>, chunk: Seq<u8>, rest: Seq<u8>, limit: nat)
    requires
        chunk.len() == 0 ==> rest.len() == 0,
        buf.len() <= limit,
        !buf.contains(LINE_BREAK),
    ensures
        ({
            let step = reader_step(buf, false, chunk, limit);
            let left = (chunk + rest).skip(step.used);
            let all = expected(buf, false, chunk + rest, limit);
            &&& step.state is Open ==> {
                &&& 0 < step.used
                &&& step.buf.len() <= limit
                &&& !step.buf.contains(LINE_BREAK)
                &&& expected(step.buf, step.skipping, left, limit) == all
            }
            &&& step.state !is Open ==> (step.state, left) == all
        }),
{
    let input = chunk + rest;
    let whole = buf + input;
    let n = text::first_at(chunk, LINE_BREAK);
    let step = reader_step(buf, false, chunk, limit);
    let left = input.skip(step.used);
    text::lemma_first_at(chunk, LINE_BREAK);
    text::lemma_first_at(rest, LINE_BREAK);
    lemma_first_break(chunk, rest);
    lemma_after_line(buf, input);
    if chunk.len() == 0 {
        assert(whole =~= buf);
        assert(left =~= after_line(whole));
    } else if buf.len() + n > limit {
        let head = input.take(n);
        assert(head + left =~= input);
        assert(!head.contains(LINE_BREAK)) by {
            if head.contains(LINE_BREAK) {
                let k = choose|k: int| 0 <= k < head.len() && head[k] == LINE_BREAK;
                assert(chunk[k] == LINE_BREAK);
            }
        }
        lemma_after_line(head, left);
    } else if n < chunk.len() {
        lemma_break_in_front(chunk, rest);
        assert(whole.take(buf.len() + n) =~= buf + chunk.take(n));
    } else {
        let more = buf + chunk;
        assert(left =~= rest);
        assert(more + left =~= whole);
        assert(!more.contains(LINE_BREAK)) by {
            if more.contains(LINE_BREAK) {
                let k = choose|k: int| 0 <= k < more.len() && more[k] == LINE_BREAK;
                if k < buf.len() {
                    assert(buf[k] == LINE_BREAK);
                } else {
                    assert(chunk[k - buf.len()] == LINE_BREAK);
                }
            }
        }
    }
}

/// What reading comes to from any point on.
proof fn lemma_read_in(buf: Seq<u8>, skipping: bool, input: Seq<u8>, sizes: Seq<int>, limit: nat)
    requires
        can_offer(buf, skipping, input, sizes, limit),
        buf.len() <= limit,
        !buf.contains(LINE_BREAK),
    ensures
        ({
            let r = read_in(buf, skipping, input, sizes, limit);
            &&& r.0 !is Open ==> r == expected(buf, skipping, input, limit)
            &&& sizes.len() > input.len() ==> r.0 !is Open
        }),
    decreases sizes.len(),
{
    if sizes.len() > 0 {
        let chunk = input.take(sizes[0]);
        let rest = input.skip(sizes[0]);
        assert(chunk + rest =~= input);
        text::lemma_first_at(chunk, LINE_BREAK);
        let step = reader_step(buf, skipping, chunk, limit);
        if skipping {
            lemma_skipping_step(buf, chunk, rest, limit);
        } else {
            lemma_reading_step(buf, chunk, rest, limit);
        }
        if step.state is Open {
            lemma_read_in(step.buf, step.skipping, input.skip(step.used), sizes.skip(1), limit);
        }
    }
}

/// However the input is cut into reads, reading a line gives the first line of the input, or that it
/// is too long, and leaves exactly what follows that line. One more read than the input has bytes is
/// always enough.
pub proof fn law_reading_gives_the_first_line(input: Seq<u8>, sizes: Seq<int>, limit: nat)
    requires
        can_offer(Seq::empty(), false, input, sizes, limit),
    ensures
        ({
            let r = read_in(Seq::empty(), false, input, sizes, limit);
            &&& r.0 !is Open ==> r == first_line(input, limit)
            &&& sizes.len() > input.len() ==> r.0 !is Open
        }),
{
    lemma_read_in(Seq::empty(), false, input, sizes, limit);
    assert(Seq::<u8>::empty() + input =~= input);
}

/// A line that is too long is dropped as a whole, its line break included, and nothing behind it is
/// lost: the next line is read as if the input began there.
pub proof fn law_next_line_is_intact(line: Seq<u8>, rest: Seq<u8>, sizes: Seq<int>, limit: nat)
    requires
        !line.contains(LINE_BREAK),
        line.len() > limit,
        can_offer(Seq::empty(), false, line.push(LINE_BREAK) + rest, sizes, limit),
        read_in(Seq::empty(), false, line.push(LINE_BREAK) + rest, sizes, limit).0 !is Open,
    ensures
        read_in(Seq::empty(), false, line.push(LINE_BREAK) + rest, sizes, limit) == (
            LineState::TooLong,
            rest,
        ),
{
    let input = line.push(LINE_BREAK) + rest;
    law_reading_gives_the_first_line(input, sizes, limit);
    lemma_skipped(line, rest);
}

/// What follows a line and its line break.
proof fn lemma_skipped(line: Seq<u8>, rest: Seq<u8>)
    requires
        !line.contains(LINE_BREAK),
    ensures
        text::first_at(line.push(LINE_BREAK) + rest, LINE_BREAK) == line.len(),
        after_line(line.push(LINE_BREAK) + rest) == rest,
{
    let input = line.push(LINE_BREAK) + rest;
    let tail = seq![LINE_BREAK] + rest;
    assert(line + tail =~= input);
    lemma_first_break(line, tail);
    text::lemma_first_at(line, LINE_BREAK);
    text::lemma_first_at(tail, LINE_BREAK);
    assert(tail[0] == LINE_BREAK);
    assert(tail.contains(LINE_BREAK));
    assert(after_line(input) =~= rest);
}

/// How many bytes are dropped when a line is skipped, over a series of chunks.
pub open spec fn bytes_skipped(chunks: Seq<Seq<u8>>) -> int
    decreases chunks.len(),
{
    if chunks.len() == 0 {
        0
    } else if chunks[0].len() == 0 || chunks[0].contains(LINE_BREAK) {
        bytes_used(chunks[0])
    } else {
        bytes_used(chunks[0]) + bytes_skipped(chunks.skip(1))
    }
}

/// Skipping a line drops the line and its line break and nothing more, however the input is cut into
/// chunks.
pub proof fn law_skipping_drops_the_line(chunks: Seq<Seq<u8>>, line: Seq<u8>, rest: Seq<u8>)
    requires
        forall|i: int| 0 <= i < chunks.len() ==> (#[trigger] chunks[i]).len() > 0,
        chunks.flatten() == line.push(LINE_BREAK) + rest,
        !line.contains(LINE_BREAK),
    ensures
        bytes_skipped(chunks) == line.len() + 1,
    decreases chunks.len(),
{
    let whole = chunks.flatten();
    lemma_skipped(line, rest);
    if chunks.len() == 0 {
        assert(whole =~= Seq::<u8>::empty());
    } else {
        let first = chunks[0];
        let others = chunks.skip(1);
        assert(chunks.drop_first() =~= others);
        assert(whole =~= first + others.flatten());
        lemma_first_break(first, others.flatten());
        text::lemma_first_at(first, LINE_BREAK);
        text::lemma_first_at(others.flatten(), LINE_BREAK);
        if !first.contains(LINE_BREAK) {
            assert(first.len() <= line.len());
            let left = line.skip(first.len() as int);
            assert(others.flatten() =~= left.push(LINE_BREAK) + rest) by {
                assert(others.flatten() =~= whole.skip(first.len() as int));
            }
            assert(!left.contains(LINE_BREAK)) by {
                if left.contains(LINE_BREAK) {
                    let k = choose|k: int| 0 <= k < left.len() && left[k] == LINE_BREAK;
                    assert(line[k + first.len()] == LINE_BREAK);
                }
            }
            assert forall|i: int| 0 <= i < others.len() implies (#[trigger] others[i]).len() > 0 by {
                assert(others[i] == chunks[i + 1]);
            }
            law_skipping_drops_the_line(others, left, rest);
        }
    }
}

/// A line is what stands in front of the line break, if it keeps to the limit, and what stands behind
/// the line break is left.
pub proof fn law_first_line(line: Seq<u8>, rest: Seq<u8>, limit: nat)
    requires
        !line.contains(10u8),
    ensures
        first_line(line.push(10u8) + rest, limit) == (
            if line.len() <= limit {
                LineState::Complete(line)
            } else {
                LineState::TooLong
            },
            rest,
        ),
        0 < line.len() <= limit ==> first_line(line, limit) == (
            LineState::Unfinished(line),
            Seq::<u8>::empty(),
        ),
        line.len() > limit ==> first_line(line, limit) == (LineState::TooLong, Seq::<u8>::empty()),
        first_line(Seq::empty(), limit) == (LineState::Ended, Seq::<u8>::empty()),
{
    let none = Seq::<u8>::empty();
    lemma_skipped(line, rest);
    assert((line.push(10u8) + rest).take(line.len() as int) =~= line);
    text::lemma_first_at(line, LINE_BREAK);
    text::lemma_first_at(none, LINE_BREAK);
    assert(after_line(line) =~= none);
    assert(after_line(none) =~= none);
}

/// A line that keeps to the limit is read as it stands, with either kind of limit and however the
/// input is cut into chunks.
pub proof fn law_line_is_read(
    chunks: Seq<Seq<u8>>,
    line: Seq<u8>,
    rest: Seq<u8>,
    limit: nat,
    exact: bool,
)
    requires
        forall|i: int| 0 <= i < chunks.len() ==> (#[trigger] chunks[i]).len() > 0,
        chunks.flatten() == line.push(10u8) + rest,
        !line.contains(10u8),
        line.len() <= limit,
    ensures
        with_chunks(chunks, limit, exact) == LineState::Complete(line),
{
    lemma_skipped(line, rest);
    law_line_ignores_chunks(chunks, limit);
    law_loose_limit(chunks, limit);
    assert((line.push(10u8) + rest).take(line.len() as int) =~= line);
    assert(Seq::<u8>::empty() + line =~= line);
}

} // verus!
