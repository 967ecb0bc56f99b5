//! Serving over HTTP: who may speak, which channel a reply goes to, and how a
//! posted message is answered.
//!
//! The sockets and channels are outside; what is decided about them is here.
use vstd::prelude::*;

use crate::json::{Json, JsonView};
use crate::mcp::types::{JSONRPCMessage, JSONRPCResponse};
use crate::text::{cat, same_text};

verus! {

/// The largest body that is accepted, in bytes.
pub const MAX_BODY_BYTES: usize = 1_000_000;

/// How long a post waits for its response, in milliseconds.
pub const POST_RESPONSE_TIMEOUT_MS: u64 = 2_000;

/// Compare two byte strings without stopping at the first difference.
pub fn constant_time_eq(a: &[u8], b: &[u8]) -> (r: bool)
    ensures
        r == (a@ == b@),
{
    if a.len() != b.len() {
        return false;
    }
    let mut diff: u8 = 0;
    let mut i: usize = 0;
    while i < a.len()
        invariant
            i <= a@.len() == b@.len(),
            (diff == 0) == (forall|k: int| 0 <= k < i ==> #[trigger] a@[k] == b@[k]),
        decreases a.len() - i,
    {
        let x: u8 = a[i];
        let y: u8 = b[i];
        assert(((diff | (x ^ y)) == 0) == (diff == 0 && x == y)) by (bit_vector);
        diff = diff | (x ^ y);
        i = i + 1;
    }
    if diff == 0 {
        assert(a@ =~= b@);
    }
    diff == 0
}

/// A refusal: an HTTP status and the text that goes with it.
#[derive(Debug)]
pub struct HttpError {
    pub status: u16,
    pub message: String,
}

/// The authorization that a server with this token expects.
pub open spec fn bearer(token: Seq<char>) -> Seq<char> {
    "Bearer "@ + token
}

/// The request may pass: no token is configured, or the authorization header
/// is the bearer form of the token.
pub open spec fn authorized(token: Option<Seq<char>>, header: Option<Seq<char>>) -> bool {
    match token {
        None => true,
        Some(t) => match header {
            Some(h) => h == bearer(t),
            None => false,
        },
    }
}

/// The view of an optional borrowed string.
pub open spec fn opt_str_view(o: Option<&str>) -> Option<Seq<char>> {
    match o {
        Some(s) => Some(s@),
        None => None,
    }
}

/// Check the authorization header of a request against the configured token.
pub fn check_auth(token: Option<&str>, header: Option<&str>) -> (r: Result<(), HttpError>)
    ensures
        r is Ok <==> authorized(opt_str_view(token), opt_str_view(header)),
        r matches Err(e) ==> e.status == 401 && e.message@ == "unauthorized"@,
{
    match token {
        None => Ok(()),
        Some(expected) => {
            let provided: &str = match header {
                Some(h) => h,
                None => "",
            };
            let wanted: String = cat("Bearer ", expected);
            proof {
                reveal_strlit("Bearer ");
                reveal_strlit("");
                vstd::utf8::encode_utf8_decode_utf8(provided@);
                vstd::utf8::encode_utf8_decode_utf8(wanted@);
            }
            if constant_time_eq(provided.as_bytes(), wanted.as_str().as_bytes()) {
                Ok(())
            } else {
                Err(HttpError { status: 401, message: "unauthorized".to_owned() })
            }
        },
    }
}

/// The response channels of the sessions, each under its session id. The
/// first entry of an id counts.
pub struct Sessions<C> {
    pub channels: Vec<(String, C)>,
}

/// The value under `id` in a list of keyed values.
pub open spec fn keyed<C>(v: Seq<(String, C)>, id: Seq<char>) -> Option<C>
    decreases v.len(),
{
    if v.len() == 0 {
        None
    } else {
        match keyed(v.drop_last(), id) {
            Some(c) => Some(c),
            None => if v.last().0@ == id {
                Some(v.last().1)
            } else {
                None
            },
        }
    }
}

impl<C> Sessions<C> {
    /// The channel of session `id`.
    pub open spec fn find(self, id: Seq<char>) -> Option<C> {
        keyed(self.channels@, id)
    }

    /// No sessions.
    pub fn new() -> (s: Sessions<C>)
        ensures
            s.channels@.len() == 0,
            forall|id: Seq<char>| #[trigger] s.find(id) is None,
    {
        Sessions { channels: Vec::new() }
    }

    /// The channel of session `id`, if it has one.
    pub fn channel(&self, id: &str) -> (r: Option<&C>)
        ensures
            match r {
                Some(c) => self.find(id@) == Some(*c),
                None => self.find(id@) is None,
            },
    {
        let ghost all = self.channels@;
        let mut i: usize = 0;
        while i < self.channels.len()
            invariant
                i <= self.channels@.len(),
                all == self.channels@,
                keyed(all.subrange(0, i as int), id@) is None,
            decreases self.channels.len() - i,
        {
            let ghost now = all.subrange(0, i + 1);
            assert(now.drop_last() == all.subrange(0, i as int));
            assert(now.last() == all[i as int]);
            if same_text(self.channels[i].0.as_str(), id) {
                proof {
                    lemma_keyed_extends(all, i + 1, id@);
                }
                return Some(&self.channels[i].1);
            }
            i = i + 1;
        }
        assert(all.subrange(0, all.len() as int) == all);
        None
    }

    /// Make sure session `id` has a channel: the one it has, or else `fresh`.
    /// No other session is affected.
    pub fn ensure(&mut self, id: &str, fresh: C)
        ensures
            final(self).find(id@) == (match old(self).find(id@) {
                Some(c) => Some(c),
                None => Some(fresh),
            }),
            forall|other: Seq<char>|
                other != id@ ==> #[trigger] final(self).find(other) == old(self).find(other),
    {
        let known: bool = self.channel(id).is_some();
        if !known {
            let ghost before = self.channels@;
            self.channels.push((id.to_owned(), fresh));
            assert(self.channels@.drop_last() == before);
        }
    }
}

/// What the first entries settle, later ones do not change.
proof fn lemma_keyed_extends<C>(v: Seq<(String, C)>, n: int, id: Seq<char>)
    requires
        0 <= n <= v.len(),
        keyed(v.subrange(0, n), id) is Some,
    ensures
        keyed(v, id) == keyed(v.subrange(0, n), id),
    decreases v.len() - n,
{
    if n == v.len() {
        assert(v.subrange(0, n) == v);
    } else {
        assert(v.subrange(0, n + 1).drop_last() == v.subrange(0, n));
        lemma_keyed_extends(v, n + 1, id);
    }
}

/// The transport between the protocol loop and the HTTP endpoints: where
/// requests come from, where replies go that belong to no session, and the
/// session of the request being answered.
pub struct HttpTransport<Q, C> {
    pub request_rx: Q,
    pub response_tx: C,
    pub current_session: Option<String>,
}

/// The channel that a reply goes to: that of the session, if it has one, and
/// else the common one.
pub open spec fn reply_channel<C>(session: Option<Seq<char>>, sessions: Sessions<C>, common: C) -> C {
    match session {
        Some(id) => match sessions.find(id) {
            Some(c) => c,
            None => common,
        },
        None => common,
    }
}

impl<Q, C> HttpTransport<Q, C> {
    /// A transport that answers no session yet.
    pub fn new(request_rx: Q, response_tx: C) -> (t: HttpTransport<Q, C>)
        ensures
            t.request_rx == request_rx,
            t.response_tx == response_tx,
            t.current_session is None,
    {
        HttpTransport { request_rx, response_tx, current_session: None }
    }

    /// The session of the request being answered.
    pub open spec fn session(self) -> Option<Seq<char>> {
        match self.current_session {
            Some(s) => Some(s@),
            None => None,
        }
    }

    /// Take up a posted message: from now on replies belong to its session.
    /// Nothing received means that all clients are gone.
    pub fn received(&mut self, item: Option<(Option<String>, JSONRPCMessage)>) -> (r: Option<
        JSONRPCMessage,
    >)
        ensures
            final(self).request_rx == old(self).request_rx,
            final(self).response_tx == old(self).response_tx,
            match item {
                Some((session, msg)) => final(self).current_session == session && r == Some(msg),
                None => *final(self) == *old(self) && r is None,
            },
    {
        match item {
            Some((session, msg)) => {
                self.current_session = session;
                Some(msg)
            },
            None => None,
        }
    }

    /// The channel to send the current reply on.
    pub fn reply_to<'a>(&'a self, sessions: &'a Sessions<C>) -> (c: &'a C)
        ensures
            *c == reply_channel(self.session(), *sessions, self.response_tx),
    {
        match &self.current_session {
            Some(id) => match sessions.channel(id.as_str()) {
                Some(c) => c,
                None => &self.response_tx,
            },
            None => &self.response_tx,
        }
    }
}

/// Shared by the endpoints: where posted messages go, the common response
/// channel, the channels of the sessions, and the token clients must present.
pub struct AppState<Q, C> {
    pub request_tx: Q,
    pub response_tx: C,
    pub sessions: Sessions<C>,
    pub token: Option<String>,
}

impl<Q, C> AppState<Q, C> {
    /// Check the authorization header of a request.
    pub fn check_auth(&self, header: Option<&str>) -> (r: Result<(), HttpError>)
        ensures
            r is Ok <==> authorized(
                match self.token {
                    Some(t) => Some(t@),
                    None => None,
                },
                opt_str_view(header),
            ),
            r matches Err(e) ==> e.status == 401 && e.message@ == "unauthorized"@,
    {
        match &self.token {
            Some(t) => check_auth(Some(t.as_str()), header),
            None => check_auth(None, header),
        }
    }

    /// The channel to listen on for the replies to `session`. A session that
    /// has none yet gets `fresh`.
    pub fn listen_on(&mut self, session: Option<&str>, fresh: C) -> (c: &C)
        ensures
            final(self).request_tx == old(self).request_tx,
            final(self).response_tx == old(self).response_tx,
            final(self).token == old(self).token,
            match session {
                Some(id) => {
                    &&& final(self).sessions.find(id@) == Some(*c)
                    &&& *c == (match old(self).sessions.find(id@) {
                        Some(known) => known,
                        None => fresh,
                    })
                    &&& forall|other: Seq<char>|
                        other != id@ ==> #[trigger] final(self).sessions.find(other) == old(
                            self,
                        ).sessions.find(other)
                },
                None => *c == old(self).response_tx && final(self).sessions == old(self).sessions,
            },
    {
        match session {
            Some(id) => {
                self.sessions.ensure(id, fresh);
                match self.sessions.channel(id) {
                    Some(c) => c,
                    None => &self.response_tx,
                }
            },
            None => &self.response_tx,
        }
    }
}

/// The body of a post is a batch: it begins with an opening bracket.
pub open spec fn is_batch_body(body: Seq<u8>) -> bool {
    body.len() > 0 && body[0] == 0x5b
}

/// Whether the body of a post is a batch.
pub fn is_batch(body: &[u8]) -> (r: bool)
    ensures
        r == is_batch_body(body@),
{
    body.len() > 0 && body[0] == 0x5b
}

/// The ids of the requests among the messages, in order.
pub open spec fn request_ids(msgs: Seq<JSONRPCMessage>) -> Seq<JsonView>
    decreases msgs.len(),
{
    if msgs.len() == 0 {
        Seq::empty()
    } else {
        let before = request_ids(msgs.drop_last());
        match msgs.last() {
            JSONRPCMessage::Request(req) => before.push(req.id@),
            _ => before,
        }
    }
}

/// A posted message or batch on its way: the ids of the responses that the
/// client waits for.
#[derive(Debug)]
pub struct PostExchange {
    pub expected: Vec<Json>,
}

/// What came up while a post waits.
#[derive(Debug)]
pub enum WaitEvent {
    /// A message on the channel listened on.
    Message(JSONRPCMessage),
    /// Messages were missed.
    Lagged,
    /// The channel was closed.
    Closed,
    /// The time is over.
    TimedOut,
}

/// What a waiting post does next.
#[derive(Debug)]
pub enum WaitStep {
    /// Wait on.
    Wait,
    /// Answer with this response, status 200.
    Reply(JSONRPCResponse),
    /// Answer without a body, status 202.
    Accepted,
}

impl PostExchange {
    /// The ids waited for.
    pub open spec fn ids(self) -> Seq<JsonView> {
        crate::json::elements(self.expected@)
    }

    /// A post of what its body was parsed into, or the refusal when it did
    /// not parse.
    pub fn begin(batch: bool, parsed: Result<&Vec<JSONRPCMessage>, &str>) -> (r: Result<
        PostExchange,
        HttpError,
    >)
        ensures
            match parsed {
                Ok(msgs) => r matches Ok(x) && x.ids() == request_ids(msgs@),
                Err(why) => r matches Err(e) && e.status == 400 && e.message@ == (if batch {
                    "invalid JSON-RPC batch: "@
                } else {
                    "invalid JSON-RPC message: "@
                }) + why@,
            },
    {
        match parsed {
            Ok(msgs) => {
                let mut expected: Vec<Json> = Vec::new();
                let mut i: usize = 0;
                assert(crate::json::elements(expected@) =~= request_ids(msgs@.subrange(0, 0)));
                while i < msgs.len()
                    invariant
                        i <= msgs@.len(),
                        crate::json::elements(expected@) == request_ids(
                            msgs@.subrange(0, i as int),
                        ),
                    decreases msgs.len() - i,
                {
                    let ghost before = expected@;
                    let ghost now = msgs@.subrange(0, i + 1);
                    assert(now.drop_last() == msgs@.subrange(0, i as int));
                    assert(now.last() == msgs@[i as int]);
                    match &msgs[i] {
                        JSONRPCMessage::Request(req) => {
                            expected.push(req.id.copy());
                            assert(crate::json::elements(expected@) =~= crate::json::elements(
                                before,
                            ).push(req.id@));
                        },
                        _ => {},
                    }
                    i = i + 1;
                }
                assert(msgs@.subrange(0, msgs@.len() as int) == msgs@);
                Ok(PostExchange { expected })
            },
            Err(why) => {
                let message: String = if batch {
                    cat("invalid JSON-RPC batch: ", why)
                } else {
                    cat("invalid JSON-RPC message: ", why)
                };
                Err(HttpError { status: 400, message })
            },
        }
    }

    /// Whether there is nothing to wait for: notifications get no response.
    pub fn is_done(&self) -> (r: bool)
        ensures
            r == (self.ids().len() == 0),
    {
        self.expected.len() == 0
    }

    /// Decide about what came up. Only a response to one of the posted
    /// requests is handed to the client.
    pub fn step(&self, event: WaitEvent) -> (s: WaitStep)
        ensures
            match event {
                WaitEvent::Message(JSONRPCMessage::Response(resp)) => if self.ids().contains(
                    resp.id@,
                ) {
                    s == WaitStep::Reply(resp)
                } else {
                    s is Wait
                },
                WaitEvent::Message(_) => s is Wait,
                WaitEvent::Lagged => s is Wait,
                WaitEvent::Closed => s is Accepted,
                WaitEvent::TimedOut => s is Accepted,
            },
    {
        match event {
            WaitEvent::Message(JSONRPCMessage::Response(resp)) => {
                let mut i: usize = 0;
                while i < self.expected.len()
                    invariant
                        i <= self.expected@.len(),
                        event == WaitEvent::Message(JSONRPCMessage::Response(resp)),
                        forall|k: int| 0 <= k < i ==> #[trigger] self.ids()[k] != resp.id@,
                    decreases self.expected.len() - i,
                {
                    assert(self.ids()[i as int] == self.expected@[i as int]@);
                    if self.expected[i].same(&resp.id) {
                        return WaitStep::Reply(resp);
                    }
                    i = i + 1;
                }
                WaitStep::Wait
            },
            WaitEvent::Message(_) => WaitStep::Wait,
            WaitEvent::Lagged => WaitStep::Wait,
            WaitEvent::Closed => WaitStep::Accepted,
            WaitEvent::TimedOut => WaitStep::Accepted,
        }
    }
}

/// The refusal when the protocol loop is gone.
pub fn shutting_down() -> (e: HttpError)
    ensures
        e.status == 500,
        e.message@ == "server shutting down"@,
{
    HttpError { status: 500, message: "server shutting down".to_owned() }
}

/// The refusal when the body cannot be read.
pub fn unreadable_body(why: &str) -> (e: HttpError)
    ensures
        e.status == 400,
        e.message@ == "read body: "@ + why@,
{
    HttpError { status: 400, message: cat("read body: ", why) }
}

/// Replies stay within their session: where two sessions have different
/// channels, the reply to a request of one does not go to the other's.
pub proof fn law_sessions_are_isolated<C>(
    sessions: Sessions<C>,
    common: C,
    mine: Seq<char>,
    other: Seq<char>,
)
    requires
        sessions.find(mine) is Some,
        sessions.find(other) is Some,
        sessions.find(mine) != sessions.find(other),
    ensures
        Some(reply_channel(Some(mine), sessions, common)) == sessions.find(mine),
        Some(reply_channel(Some(mine), sessions, common)) != sessions.find(other),
{
}

/// A configured token is the only way in: two authorizations that pass are
/// the same.
pub proof fn law_token_is_required(token: Seq<char>, header: Option<Seq<char>>)
    ensures
        authorized(Some(token), header) <==> header == Some(bearer(token)),
        authorized(None, header),
{
}

/// Only the right token passes: with a token the header has to be `Bearer`, a
/// space and the token; a token alone, another one, or none does not pass.
pub proof fn law_right_token_passes(token: Seq<char>, other: Seq<char>)
    ensures
        authorized(Some(token), Some("Bearer "@ + token)),
        authorized(Some(token), Some("Bearer "@ + other)) ==> other == token,
        !authorized(Some(token), Some(token)),
        !authorized(Some(token), None),
{
    reveal_strlit("Bearer ");
    let a = "Bearer "@ + token;
    let b = "Bearer "@ + other;
    if a == b {
        assert(a.len() == b.len());
        assert(other =~= token) by {
            assert forall|i: int| 0 <= i < token.len() implies other[i] == token[i] by {
                assert(a[i + 7] == token[i]);
                assert(b[i + 7] == other[i]);
            }
        }
    }
    assert(a.len() == token.len() + 7);
}

/// A session keeps the channel that it got first: a later entry under its name
/// changes nothing, and an entry is found under its own name only.
pub proof fn law_first_channel_counts<C>(v: Seq<(String, C)>, entry: (String, C), id: Seq<char>)
    ensures
        keyed(v, id) is Some ==> keyed(v.push(entry), id) == keyed(v, id),
        keyed(v, id) is None && entry.0@ == id ==> keyed(v.push(entry), id) == Some(entry.1),
        keyed(v, id) is None && entry.0@ != id ==> keyed(v.push(entry), id) is None,
        keyed(Seq::<(String, C)>::empty(), id) is None,
{
    assert(v.push(entry).drop_last() =~= v);
}

/// A reply goes to the channel of the session that asked; without a session, or
/// to one that has none, it goes to the common channel.
pub proof fn law_replies_go_to_their_session<C>(sessions: Sessions<C>, common: C, id: Seq<char>)
    ensures
        sessions.find(id) matches Some(c) ==> reply_channel(Some(id), sessions, common) == c,
        sessions.find(id) is None ==> reply_channel(Some(id), sessions, common) == common,
        reply_channel(None, sessions, common) == common,
{
}

/// A post waits for the response to each of its requests and for nothing else:
/// one more message adds its id exactly when it is a request.
pub proof fn law_requests_are_waited_for(msgs: Seq<JSONRPCMessage>, m: JSONRPCMessage)
    ensures
        request_ids(Seq::empty()).len() == 0,
        m matches JSONRPCMessage::Request(r) ==> request_ids(msgs.push(m)) == request_ids(
            msgs,
        ).push(r.id@),
        !(m is Request) ==> request_ids(msgs.push(m)) == request_ids(msgs),
{
    assert(msgs.push(m).drop_last() =~= msgs);
}

/// A body is a batch exactly when it begins with an opening bracket, and what
/// follows does not matter.
pub proof fn law_batches_begin_with_a_bracket(first: u8, rest: Seq<u8>)
    ensures
        is_batch_body(seq![first] + rest) <==> first as char == '[',
        !is_batch_body(Seq::empty()),
{
}

} // verus!
