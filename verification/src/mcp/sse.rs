//! Server-sent-event framing: each message is the payload of one event.
//!
//! A sent message is `data: {json}` and a blank line. A received event is the
//! payload of its `data:` lines up to the next blank line.
use vstd::prelude::*;

use crate::text::{
    cat3, chars_of, lemma_trimmed_bounds, occurs_at, part_at, slice_text, trim, trimmed,
    trimmed_start,
};

verus! {

/// An event being received: the payload so far, and whether there is one.
pub struct EventView {
    pub payload: Seq<char>,
    pub saw_event: bool,
}

impl EventView {
    /// Nothing received yet.
    pub open spec fn start() -> EventView {
        EventView { payload: Seq::empty(), saw_event: false }
    }

    /// The event after a line that is not blank: a `data:` line adds its
    /// trimmed payload, any other line nothing.
    pub open spec fn with_line(self, line: Seq<char>) -> EventView {
        match data_of(line) {
            Some(d) => if d.len() == 0 {
                self
            } else {
                EventView { payload: self.payload + d, saw_event: true }
            },
            None => self,
        }
    }
}

/// A line without its carriage returns and newlines at the end.
pub open spec fn bare_line(line: Seq<char>) -> Seq<char>
    decreases line.len(),
{
    if line.len() > 0 && (line.last() == '\n' || line.last() == '\r') {
        bare_line(line.drop_last())
    } else {
        line
    }
}

/// The payload of a `data:` line.
pub open spec fn data_of(line: Seq<char>) -> Option<Seq<char>> {
    if occurs_at(line, "data:"@, 0) {
        Some(trimmed(line.subrange(5, line.len() as int)))
    } else {
        None
    }
}

/// What a line amounts to.
#[derive(Debug)]
pub enum SseStep {
    /// Nothing yet: read on.
    More,
    /// The input has ended between events.
    Closed,
    /// The event is complete; this is its payload, still to be parsed.
    Payload(String),
}

/// The framing over a byte stream of type `S`.
pub struct SseTransport<S> {
    pub inner: S,
    pub payload: String,
    pub saw_event: bool,
}

impl<S> SseTransport<S> {
    /// The event being received.
    pub open spec fn event(self) -> EventView {
        EventView { payload: self.payload@, saw_event: self.saw_event }
    }

    /// There is a payload exactly when an event has begun.
    pub open spec fn wf(self) -> bool {
        self.saw_event <==> self.payload@.len() > 0
    }

    /// The framing over `stream`, between events.
    pub fn new(stream: S) -> (t: SseTransport<S>)
        ensures
            t.inner == stream,
            t.event() == EventView::start(),
            t.wf(),
    {
        SseTransport { inner: stream, payload: String::new(), saw_event: false }
    }

    /// The stream again.
    pub fn into_inner(self) -> (s: S)
        ensures
            s == self.inner,
    {
        self.inner
    }

    /// Take in a line; an empty read means the end of the input.
    ///
    /// A blank line completes the event if one has begun, and so does the end
    /// of the input.
    pub fn feed(&mut self, read: &str) -> (step: SseStep)
        requires
            old(self).wf(),
        ensures
            final(self).wf(),
            final(self).inner == old(self).inner,
            if read@.len() == 0 || bare_line(read@).len() == 0 {
                if old(self).saw_event {
                    &&& step matches SseStep::Payload(p) && p@ == old(self).payload@
                    &&& final(self).event() == EventView::start()
                } else {
                    (if read@.len() == 0 {
                        step is Closed
                    } else {
                        step is More
                    }) && final(self).event() == old(self).event()
                }
            } else {
                step is More && final(self).event() == old(self).event().with_line(
                    bare_line(read@),
                )
            },
    {
        let v: Vec<char> = chars_of(read);
        assert(v@.subrange(0, v@.len() as int) == v@);
        let mut n: usize = v.len();
        while n > 0 && (v[n - 1] == '\n' || v[n - 1] == '\r')
            invariant
                n <= v@.len(),
                bare_line(v@.subrange(0, n as int)) == bare_line(v@),
            decreases n,
        {
            assert(v@.subrange(0, n as int).drop_last() == v@.subrange(0, n - 1));
            n = n - 1;
        }
        let ghost line = v@.subrange(0, n as int);
        assert(bare_line(read@) == line);
        if n == 0 {
            if self.saw_event {
                let payload: String = self.payload.clone();
                self.payload = String::new();
                self.saw_event = false;
                return SseStep::Payload(payload);
            }
            return if v.len() == 0 {
                SseStep::Closed
            } else {
                SseStep::More
            };
        }
        let prefix: Vec<char> = chars_of("data:");
        proof {
            reveal_strlit("data:");
        }
        let text: String = slice_text(&v, 0, n);
        let chars: Vec<char> = chars_of(text.as_str());
        if part_at(&chars, &prefix, 0) {
            let rest: String = slice_text(&chars, 5, n);
            let data: String = trim(rest.as_str());
            if !data.as_str().is_empty() {
                self.saw_event = true;
                self.payload.append(data.as_str());
            }
        }
        SseStep::More
    }
}

/// A message as it is sent.
pub open spec fn framed(json: Seq<char>) -> Seq<char> {
    "data: "@ + json + "\n\n"@
}

/// Frame a message for sending.
pub fn sse_frame(json: &str) -> (s: String)
    ensures
        s@ == framed(json@),
{
    cat3("data: ", json, "\n\n")
}

/// What a reader of lines gets first out of `s`: everything up to and with
/// the first newline.
pub open spec fn first_line(s: Seq<char>) -> Seq<char>
    decreases s.len(),
{
    if s.len() == 0 {
        s
    } else if s[0] == '\n' {
        seq!['\n']
    } else {
        seq![s[0]] + first_line(s.subrange(1, s.len() as int))
    }
}

/// The first line of a text whose first newline stands behind `front`.
proof fn lemma_first_line(front: Seq<char>, back: Seq<char>)
    requires
        !front.contains('\n'),
    ensures
        first_line(front + seq!['\n'] + back) == front + seq!['\n'],
    decreases front.len(),
{
    let s = front + seq!['\n'] + back;
    if front.len() == 0 {
        assert(s[0] == '\n');
        assert(front + seq!['\n'] == seq!['\n']);
    } else {
        let tail = front.subrange(1, front.len() as int);
        assert(front.contains(front[0]));
        assert forall|c: char| tail.contains(c) implies front.contains(c) by {
            let k = choose|k: int| 0 <= k < tail.len() && tail[k] == c;
            assert(front[k + 1] == c);
        }
        assert(s.subrange(1, s.len() as int) == tail + seq!['\n'] + back);
        lemma_first_line(tail, back);
        assert(seq![s[0]] + (tail + seq!['\n']) == front + seq!['\n']);
    }
}

/// What is sent arrives: the two lines of a frame, fed one after the other to
/// a transport between events, complete an event whose payload is the message
/// sent. The message is any text without newlines that is its own trimmed
/// form.
pub proof fn law_frame_round_trip(json: Seq<char>)
    requires
        json.len() > 0,
        trimmed(json) == json,
        !json.contains('\n'),
    ensures
        ({
            let line = first_line(framed(json));
            let rest = framed(json).subrange(line.len() as int, framed(json).len() as int);
            &&& EventView::start().with_line(bare_line(line)) == (EventView {
                payload: json,
                saw_event: true,
            })
            &&& bare_line(line).len() > 0
            &&& rest == seq!['\n']
            &&& first_line(rest) == rest
            &&& bare_line(rest).len() == 0
        }),
{
    reveal_strlit("data: ");
    reveal_strlit("data:");
    reveal_strlit("\n\n");
    let front = "data: "@ + json;
    assert(framed(json) == front + seq!['\n'] + seq!['\n']);
    assert(!front.contains('\n')) by {
        if front.contains('\n') {
            let k = choose|k: int| 0 <= k < front.len() && front[k] == '\n';
            if k >= 6 {
                assert(json[k - 6] == '\n');
            }
        }
    }
    lemma_first_line(front, seq!['\n']);
    let line = first_line(framed(json));
    assert(line == front.push('\n'));
    lemma_trimmed_bounds(json);
    assert(line.drop_last() == front);
    assert(front.last() == json.last());
    reveal_with_fuel(bare_line, 3);
    assert(bare_line(line) == front);
    assert(front.subrange(0, 5) == "data:"@);
    let rest = front.subrange(5, front.len() as int);
    assert(rest == seq![' '] + json);
    assert(rest.subrange(1, rest.len() as int) == json);
    assert(trimmed_start(rest) == trimmed_start(json));
    assert(Seq::<char>::empty() + json == json);
    let tail = framed(json).subrange(line.len() as int, framed(json).len() as int);
    assert(tail == seq!['\n']);
    assert(tail.drop_last().len() == 0);
}

/// A line that begins with `data:` adds what follows, without the white space
/// around it, behind what came before; any other line adds nothing, and neither
/// does one that carries nothing.
pub proof fn law_data_lines_add_up(event: EventView, rest: Seq<char>, line: Seq<char>)
    ensures
        trimmed(rest).len() > 0 ==> event.with_line("data:"@ + rest) == (EventView {
            payload: event.payload + trimmed(rest),
            saw_event: true,
        }),
        trimmed(rest).len() == 0 ==> event.with_line("data:"@ + rest) == event,
        !occurs_at(line, "data:"@, 0) ==> event.with_line(line) == event,
{
    reveal_strlit("data:");
    let whole = "data:"@ + rest;
    assert(whole.subrange(0, 5) =~= "data:"@);
    assert(occurs_at(whole, "data:"@, 0));
    assert(whole.subrange(5, whole.len() as int) =~= rest);
}

/// What ends a line is no part of it, and nothing else is cut off.
pub proof fn law_line_ends_are_cut_off(line: Seq<char>)
    ensures
        bare_line(line.push('\n')) == bare_line(line),
        bare_line(line.push('\r')) == bare_line(line),
        line.len() > 0 && line.last() != '\n' && line.last() != '\r' ==> bare_line(line) == line,
{
    assert(line.push('\n').drop_last() =~= line);
    assert(line.push('\r').drop_last() =~= line);
}

} // verus!
