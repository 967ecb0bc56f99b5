//! Line framing of the stdio transport: one message per line, with a cap on
//! the length of a line.
//!
//! Reading is outside work. [`StdioTransport`] says how much to read, is told
//! what was read, and decides what that amounts to.
use vstd::prelude::*;
use vstd::utf8::{decode_utf8, valid_utf8};

use crate::error::Error;
use crate::text::{trim, trimmed};

verus! {

/// The longest line that is accepted, in bytes, not counting its line end.
pub const MAX_LINE_BYTES: usize = 1_000_000;

/// How many bytes are dropped at most to get to the end of a longer line.
pub const MAX_DRAIN_BYTES: usize = 16_777_216;

/// How many bytes are dropped at a time.
pub const DRAIN_CHUNK_BYTES: usize = 65_536;

/// The byte that ends a line.
pub const LINE_FEED: u8 = 10;

/// The byte that may stand before it.
pub const CARRIAGE_RETURN: u8 = 13;

/// `s` without the run of `b` at its end.
pub open spec fn without_trailing(s: Seq<u8>, b: u8) -> Seq<u8>
    decreases s.len(),
{
    if s.len() > 0 && s.last() == b {
        without_trailing(s.drop_last(), b)
    } else {
        s
    }
}

/// The bytes of a line without its line end.
pub open spec fn line_content(s: Seq<u8>) -> Seq<u8> {
    without_trailing(without_trailing(s, LINE_FEED), CARRIAGE_RETURN)
}

/// How far a run of `b` at the end of `v[..to]` reaches back.
fn trailing_start(v: &[u8], to: usize, b: u8) -> (n: usize)
    requires
        to <= v@.len(),
    ensures
        n <= to,
        v@.subrange(0, n as int) == without_trailing(v@.subrange(0, to as int), b),
{
    let mut n: usize = to;
    while n > 0 && v[n - 1] == b
        invariant
            n <= to <= v@.len(),
            without_trailing(v@.subrange(0, n as int), b) == without_trailing(
                v@.subrange(0, to as int),
                b,
            ),
        decreases n,
    {
        assert(v@.subrange(0, n as int).drop_last() == v@.subrange(0, n - 1));
        n = n - 1;
    }
    n
}

/// How long a line is without its line end.
fn content_len(read: &[u8]) -> (n: usize)
    ensures
        n == line_content(read@).len(),
{
    assert(read@.subrange(0, read@.len() as int) == read@);
    let a: usize = trailing_start(read, read.len(), LINE_FEED);
    trailing_start(read, a, CARRIAGE_RETURN)
}

/// `std::str::from_utf8`: the text that the bytes encode, if they are UTF-8.
#[verifier::external_body]
fn utf8_text(bytes: &[u8]) -> (r: Option<&str>)
    ensures
        match r {
            Some(s) => valid_utf8(bytes@) && s@ == decode_utf8(bytes@),
            None => !valid_utf8(bytes@),
        },
{
    std::str::from_utf8(bytes).ok()
}

/// What a raw line stands for.
#[derive(Debug)]
pub enum LineOutcome {
    /// The input has ended.
    Eof,
    /// White space between messages.
    Blank,
    /// A message, still to be parsed.
    Payload(String),
}

/// Tell what a raw line stands for. Only the end of the input ends the
/// conversation; a blank line is passed over.
pub fn classify(raw: Option<&str>) -> (r: LineOutcome)
    ensures
        match raw {
            None => r is Eof,
            Some(line) => if trimmed(line@).len() == 0 {
                r is Blank
            } else {
                r matches LineOutcome::Payload(p) && p@ == trimmed(line@)
            },
        },
{
    match raw {
        None => LineOutcome::Eof,
        Some(line) => {
            let t: String = trim(line);
            if t.as_str().is_empty() {
                LineOutcome::Blank
            } else {
                LineOutcome::Payload(t)
            }
        },
    }
}

/// What a read amounts to.
#[derive(Debug)]
pub enum LineEvent {
    /// Nothing yet: read on.
    More,
    /// The input has ended.
    Eof,
    /// A line within the cap.
    Line(String),
    /// A line within the cap that is not UTF-8.
    NotText,
    /// A line beyond the cap, now dropped.
    TooLong,
}

/// The value of an event.
pub enum LineEventView {
    More,
    Eof,
    Line(Seq<char>),
    NotText,
    TooLong,
}

impl View for LineEvent {
    type V = LineEventView;

    open spec fn view(&self) -> LineEventView {
        match *self {
            LineEvent::More => LineEventView::More,
            LineEvent::Eof => LineEventView::Eof,
            LineEvent::Line(l) => LineEventView::Line(l@),
            LineEvent::NotText => LineEventView::NotText,
            LineEvent::TooLong => LineEventView::TooLong,
        }
    }
}

/// The largest number of bytes to take with the next read, which also ends at
/// a line end. At the start of a line it leaves room for both bytes of a line
/// end behind a line of the cap.
pub open spec fn limit_of(drained: Option<usize>) -> nat {
    if drained is None {
        (MAX_LINE_BYTES + 2) as nat
    } else {
        DRAIN_CHUNK_BYTES as nat
    }
}

/// What was read at the start of a line shows that the line is beyond the cap:
/// its content is too long, or the read was full before the line ended.
pub open spec fn is_too_long(read: Seq<u8>) -> bool {
    ||| line_content(read).len() > MAX_LINE_BYTES
    ||| read.len() >= MAX_LINE_BYTES + 2 && read.last() != LINE_FEED
}

/// What a read amounts to, and what is being dropped after it.
///
/// At the start of a line, a line within the cap is handed on as text. A longer
/// one is refused, once what is left of it was dropped. Dropping goes on until
/// the line ends, the input ends, or enough was dropped. An empty read means the
/// end of the input.
pub open spec fn fed(drained: Option<usize>, read: Seq<u8>) -> (Option<usize>, LineEventView) {
    match drained {
        None => if read.len() == 0 {
            (None, LineEventView::Eof)
        } else if is_too_long(read) {
            if read.last() == LINE_FEED {
                (None, LineEventView::TooLong)
            } else {
                (Some(0usize), LineEventView::More)
            }
        } else if valid_utf8(read) {
            (None, LineEventView::Line(decode_utf8(read)))
        } else {
            (None, LineEventView::NotText)
        },
        Some(d) => if read.len() == 0 || read.last() == LINE_FEED || d + read.len()
            >= MAX_DRAIN_BYTES {
            (None, LineEventView::TooLong)
        } else {
            (Some((d + read.len()) as usize), LineEventView::More)
        },
    }
}

/// The state of the line framing: whether a line is being dropped, and how
/// much of it has been.
#[derive(Debug)]
pub struct StdioTransport {
    pub drained: Option<usize>,
}

impl StdioTransport {
    /// A transport at the start of a line.
    pub fn new() -> (t: StdioTransport)
        ensures
            t.drained is None,
    {
        StdioTransport { drained: None }
    }

    /// The largest number of bytes to take with the next read, which also
    /// ends at a line end.
    pub fn read_limit(&self) -> (n: usize)
        ensures
            n == limit_of(self.drained),
    {
        if self.drained.is_none() {
            MAX_LINE_BYTES + 2
        } else {
            DRAIN_CHUNK_BYTES
        }
    }

    /// Take in what was read; an empty read means the end of the input. The
    /// bytes are read as text once the line is complete, so a read may end
    /// inside a character.
    pub fn feed(&mut self, read: &[u8]) -> (e: LineEvent)
        ensures
            (final(self).drained, e@) == fed(old(self).drained, read@),
    {
        match self.drained {
            None => {
                if read.len() == 0 {
                    return LineEvent::Eof;
                }
                let ended: bool = read[read.len() - 1] == LINE_FEED;
                if content_len(read) > MAX_LINE_BYTES || (read.len() >= MAX_LINE_BYTES + 2
                    && !ended) {
                    if ended {
                        return LineEvent::TooLong;
                    }
                    self.drained = Some(0);
                    return LineEvent::More;
                }
                match utf8_text(read) {
                    Some(s) => LineEvent::Line(s.to_owned()),
                    None => LineEvent::NotText,
                }
            },
            Some(d) => {
                let n: usize = read.len();
                if n == 0 || read[n - 1] == LINE_FEED || d >= MAX_DRAIN_BYTES || n
                    >= MAX_DRAIN_BYTES - d {
                    self.drained = None;
                    LineEvent::TooLong
                } else {
                    self.drained = Some(d + n);
                    LineEvent::More
                }
            },
        }
    }
}

impl Default for StdioTransport {
    fn default() -> (t: StdioTransport)
        ensures
            t.drained is None,
    {
        StdioTransport::new()
    }
}

/// The error for a line beyond the cap; it is the client's, so the
/// conversation goes on.
pub fn too_long_error() -> (e: Error)
    ensures
        e is JsonRpcParse,
        e.text() == "line exceeds 1000000 bytes"@,
{
    Error::JsonRpcParse("line exceeds 1000000 bytes".to_owned())
}

/// The error for a line that is not UTF-8; it is the client's, so the
/// conversation goes on.
pub fn not_text_error() -> (e: Error)
    ensures
        e is JsonRpcParse,
        e.text() == "stream did not contain valid UTF-8"@,
{
    Error::JsonRpcParse("stream did not contain valid UTF-8".to_owned())
}

/// A message as it is written: its text and a line end.
pub fn frame_line(json: &str) -> (s: String)
    ensures
        s@ == json@.push('\n'),
{
    let mut s: String = json.to_owned();
    s.push('\n');
    s
}

/// A line of exactly the cap is accepted, whichever way it ends.
pub proof fn law_line_at_the_cap_is_accepted(content: Seq<u8>, end: Seq<u8>)
    requires
        content.len() == MAX_LINE_BYTES,
        content.last() != LINE_FEED && content.last() != CARRIAGE_RETURN,
        end == seq![LINE_FEED] || end == seq![CARRIAGE_RETURN, LINE_FEED] || end
            == seq![CARRIAGE_RETURN] || end.len() == 0,
        valid_utf8(content + end),
    ensures
        line_content(content + end) == content,
        fed(None, content + end) == (
            None::<usize>,
            LineEventView::Line(decode_utf8(content + end)),
        ),
{
    let s = content + end;
    reveal_with_fuel(without_trailing, 3);
    if end.len() == 0 {
        assert(s == content);
    } else if end.len() == 1 {
        assert(s.drop_last() == content);
    } else {
        assert(s.drop_last() == content.push(CARRIAGE_RETURN));
        assert(content.push(CARRIAGE_RETURN).drop_last() == content);
    }
}

/// How many bytes a read takes from the stream: up to a line end, and no more
/// than the limit.
pub open spec fn read_len(stream: Seq<u8>, limit: nat) -> nat
    decreases limit,
{
    if limit == 0 || stream.len() == 0 {
        0
    } else if stream[0] == LINE_FEED {
        1
    } else {
        1 + read_len(stream.subrange(1, stream.len() as int), (limit - 1) as nat)
    }
}

/// A read takes no more than there is.
pub proof fn lemma_read_len(stream: Seq<u8>, limit: nat)
    ensures
        read_len(stream, limit) <= stream.len(),
        read_len(stream, limit) <= limit,
    decreases limit,
{
    if limit > 0 && stream.len() > 0 && stream[0] != LINE_FEED {
        lemma_read_len(stream.subrange(1, stream.len() as int), (limit - 1) as nat);
    }
}

/// The line ends at `k`.
pub open spec fn ends_at(stream: Seq<u8>, k: int) -> bool {
    &&& 0 <= k < stream.len()
    &&& stream[k] == LINE_FEED
    &&& forall|j: int| 0 <= j < k ==> #[trigger] stream[j] != LINE_FEED
}

/// A read takes the line with its end, or as much as the limit allows.
proof fn lemma_read_to_end(stream: Seq<u8>, limit: nat, k: int)
    requires
        ends_at(stream, k),
    ensures
        read_len(stream, limit) == (if k < limit {
            k + 1
        } else {
            limit as int
        }),
    decreases limit,
{
    if limit > 0 && k > 0 {
        let rest = stream.subrange(1, stream.len() as int);
        assert(stream[0] != LINE_FEED);
        assert(ends_at(rest, k - 1)) by {
            assert forall|j: int| 0 <= j < k - 1 implies #[trigger] rest[j] != LINE_FEED by {
                assert(rest[j] == stream[j + 1]);
            }
        }
        lemma_read_to_end(rest, (limit - 1) as nat, k - 1);
    }
}

/// What comes of reading a stream until something does, and what is left of the
/// stream then.
pub open spec fn line_run(drained: Option<usize>, stream: Seq<u8>) -> (LineEventView, Seq<u8>)
    decreases stream.len(),
{
    let n = read_len(stream, limit_of(drained)) as int;
    let (next, event) = fed(drained, stream.subrange(0, n));
    let rest = stream.subrange(n, stream.len() as int);
    proof {
        lemma_read_len(stream, limit_of(drained));
    }
    if event is More {
        line_run(next, rest)
    } else {
        (event, rest)
    }
}

/// Stripping makes nothing longer.
proof fn lemma_without_trailing_len(s: Seq<u8>, b: u8)
    ensures
        without_trailing(s, b).len() <= s.len(),
    decreases s.len(),
{
    if s.len() > 0 && s.last() == b {
        lemma_without_trailing_len(s.drop_last(), b);
    }
}

/// What is dropped of a line reaches to its end.
proof fn lemma_drained_to_end(d: usize, stream: Seq<u8>, k: int)
    requires
        ends_at(stream, k),
        d + k < MAX_DRAIN_BYTES,
    ensures
        line_run(Some(d), stream) == (
            LineEventView::TooLong,
            stream.subrange(k + 1, stream.len() as int),
        ),
    decreases stream.len(),
{
    let limit = DRAIN_CHUNK_BYTES as nat;
    lemma_read_to_end(stream, limit, k);
    let n = read_len(stream, limit) as int;
    let read = stream.subrange(0, n);
    let rest = stream.subrange(n, stream.len() as int);
    if k < limit {
        assert(read.last() == stream[k]);
    } else {
        assert(read.last() == stream[n - 1]);
        assert(ends_at(rest, k - n)) by {
            assert forall|j: int| 0 <= j < k - n implies #[trigger] rest[j] != LINE_FEED by {
                assert(rest[j] == stream[j + n]);
            }
        }
        lemma_drained_to_end((d + n) as usize, rest, k - n);
        assert(rest.subrange(k - n + 1, rest.len() as int) =~= stream.subrange(
            k + 1,
            stream.len() as int,
        ));
    }
}

/// The line that ends at `k` is within the cap, whether its line end has one byte
/// or two.
pub open spec fn fits(stream: Seq<u8>, k: int) -> bool {
    ||| k <= MAX_LINE_BYTES
    ||| k == MAX_LINE_BYTES + 1 && stream[k - 1] == CARRIAGE_RETURN
}

/// A line that is no longer than a read is judged by its content.
proof fn lemma_fits(stream: Seq<u8>, k: int)
    requires
        ends_at(stream, k),
        k <= MAX_LINE_BYTES + 1,
    ensures
        is_too_long(stream.subrange(0, k + 1)) <==> !fits(stream, k),
{
    let read = stream.subrange(0, k + 1);
    let bare = read.drop_last();
    assert(read.last() == LINE_FEED);
    if k > 0 {
        assert(bare.last() == stream[k - 1]);
        assert(stream[k - 1] != LINE_FEED);
    }
    assert(without_trailing(bare, LINE_FEED) == bare);
    assert(without_trailing(read, LINE_FEED) == bare);
    lemma_without_trailing_len(bare, CARRIAGE_RETURN);
    if k == MAX_LINE_BYTES + 1 {
        if stream[k - 1] == CARRIAGE_RETURN {
            lemma_without_trailing_len(bare.drop_last(), CARRIAGE_RETURN);
        }
    }
}

/// After a line, reading goes on behind its end, whatever its bytes are: one
/// within the cap was handed on, or refused as not being text, and a longer
/// one was refused and dropped to its end.
pub proof fn law_next_line_starts_behind_the_end(stream: Seq<u8>, k: int)
    requires
        ends_at(stream, k),
        k <= MAX_LINE_BYTES + 1 + MAX_DRAIN_BYTES,
    ensures
        line_run(None, stream).1 == stream.subrange(k + 1, stream.len() as int),
        line_run(None, stream).0 == (if !fits(stream, k) {
            LineEventView::TooLong
        } else if valid_utf8(stream.subrange(0, k + 1)) {
            LineEventView::Line(decode_utf8(stream.subrange(0, k + 1)))
        } else {
            LineEventView::NotText
        }),
{
    let limit = (MAX_LINE_BYTES + 2) as nat;
    lemma_read_to_end(stream, limit, k);
    let n = read_len(stream, limit) as int;
    let read = stream.subrange(0, n);
    if k < limit {
        lemma_fits(stream, k);
        assert(read.last() == LINE_FEED);
    } else {
        let rest = stream.subrange(n, stream.len() as int);
        assert(read.last() == stream[n - 1]);
        assert(ends_at(rest, k - n)) by {
            assert forall|j: int| 0 <= j < k - n implies #[trigger] rest[j] != LINE_FEED by {
                assert(rest[j] == stream[j + n]);
            }
        }
        lemma_drained_to_end(0, rest, k - n);
        assert(rest.subrange(k - n + 1, rest.len() as int) =~= stream.subrange(
            k + 1,
            stream.len() as int,
        ));
    }
}

/// What is written as one line is read back as the same message: a text that
/// is its own trimmed form.
pub proof fn law_written_line_reads_back(json: Seq<char>)
    requires
        trimmed(json) == json,
        json.len() > 0,
    ensures
        trimmed(json.push('\n')) == json,
{
    lemma_trim_line_end(json);
}

/// White space behind a trimmed text is trimmed away again.
proof fn lemma_trim_line_end(s: Seq<char>)
    requires
        trimmed(s) == s,
        s.len() > 0,
    ensures
        trimmed(s.push('\n')) == s,
{
    crate::text::lemma_trimmed_bounds(s);
    let t = s.push('\n');
    assert(t.subrange(0, t.len() - 1) == s);
    assert(crate::text::trimmed_start(t) == t);
    assert(crate::text::trimmed_end(t) == crate::text::trimmed_end(s));
}

} // verus!
