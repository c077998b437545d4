//! The event decisions of the handshaking server: it accepts clients, reads
//! each client's opening handshake, answers it, and from then on reads
//! frames.

use std::collections::HashMap;
use vstd::prelude::*;
use vstd::string::*;
use crate::events::{EventSet, PollOpt, Registration};
use crate::parser::{
    fields_after, header_lines, law_last_field_wins, line_key, line_value, request_parsable,
    request_uri, Header, Parser,
};
use crate::socket_key::{accept_key, gen_key};

verus! {

broadcast use vstd::std_specs::hash::group_hash_axioms;

/// The token of the listening socket.
pub const SERVER: usize = 0;

/// Where a client is in the handshake.
#[derive(Clone, Copy, Debug, PartialEq, Eq, Structural)]
pub enum ClientState {
    AwaitingHandshake,
    HandshakeResponse,
    Connected,
}

/// How far a client is in the handshake: a client's state never goes back.
pub open spec fn state_rank(s: ClientState) -> int {
    match s {
        ClientState::AwaitingHandshake => 0,
        ClientState::HandshakeResponse => 1,
        ClientState::Connected => 2,
    }
}

/// What the handshaking server keeps of a client.
pub struct HandshakeClient {
    pub header: Header,
    pub interest: EventSet,
    pub state: ClientState,
    /// The last answer to the handshake written to the client.
    pub answer: Ghost<Seq<char>>,
}

impl HandshakeClient {
    /// A client that has just been accepted.
    pub open spec fn is_fresh(&self) -> bool {
        &&& self.header.method@ == Seq::<char>::empty()
        &&& self.header.uri@ == Seq::<char>::empty()
        &&& self.header.http_version@ == Seq::<char>::empty()
        &&& self.header.fields@ == Map::<Seq<char>, Seq<char>>::empty()
        &&& self.interest == EventSet::readable_spec()
        &&& self.state == ClientState::AwaitingHandshake
    }

    /// A client awaiting its handshake, interested in reading it.
    pub fn new() -> (c: HandshakeClient)
        ensures
            c.is_fresh(),
    {
        HandshakeClient {
            header: Header::new(),
            interest: EventSet::readable(),
            state: ClientState::AwaitingHandshake,
            answer: Ghost(Seq::empty()),
        }
    }

    /// What holds of every client at every point: a client still awaiting
    /// its handshake has no fields yet, and a connected client has a key and
    /// has been answered with the accept value of that key.
    pub open spec fn consistent(&self) -> bool {
        &&& self.state == ClientState::AwaitingHandshake ==> self.header.fields@
            == Map::<Seq<char>, Seq<char>>::empty()
        &&& self.state == ClientState::Connected ==> {
            &&& self.header.fields@.contains_key(key_field())
            &&& self.answer@ == handshake_response_spec(self.header.fields@[key_field()])
        }
    }
}

/// The header field that holds the client's key.
pub open spec fn key_field() -> Seq<char> {
    "Sec-WebSocket-Key"@
}

/// The answer that switches to the websocket protocol with the accept
/// value `accept`.
pub open spec fn switching_protocols_spec(accept: Seq<char>) -> Seq<char> {
    "HTTP/1.1 101 Switching Protocols\r\nUpgrade: websocket\r\nConnection: Upgrade\r\nSec-WebSocket-Accept: "@
        + accept + "\r\nSec-WebSocket-Version: 13\r\n\r\n"@
}

/// The answer to a handshake whose key is `key`.
pub open spec fn handshake_response_spec(key: Seq<char>) -> Seq<char> {
    switching_protocols_spec(accept_key(key))
}

/// The answer to a handshake carries the accept value of the client's key
/// exactly as received, between the fixed head of the 101 answer and its
/// fixed tail: the answers to two keys differ exactly where their accept
/// values do.
pub proof fn law_answer_carries_accept_key(key: Seq<char>)
    ensures
        ({
            let head = "HTTP/1.1 101 Switching Protocols\r\nUpgrade: websocket\r\nConnection: Upgrade\r\nSec-WebSocket-Accept: "@;
            let tail = "\r\nSec-WebSocket-Version: 13\r\n\r\n"@;
            let r = handshake_response_spec(key);
            let a = accept_key(key);
            &&& r.len() == head.len() + a.len() + tail.len()
            &&& r.take(head.len() as int) == head
            &&& r.subrange(head.len() as int, (head.len() + a.len()) as int) == a
            &&& r.skip((head.len() + a.len()) as int) == tail
        }),
{
    let head = "HTTP/1.1 101 Switching Protocols\r\nUpgrade: websocket\r\nConnection: Upgrade\r\nSec-WebSocket-Accept: "@;
    let tail = "\r\nSec-WebSocket-Version: 13\r\n\r\n"@;
    let r = handshake_response_spec(key);
    let a = accept_key(key);
    assert(r.take(head.len() as int) =~= head);
    assert(r.subrange(head.len() as int, (head.len() + a.len()) as int) =~= a);
    assert(r.skip((head.len() + a.len()) as int) =~= tail);
}

/// The answer that switches to the websocket protocol with the accept
/// value `accept`.
pub fn switching_protocols(accept: &str) -> (resp: String)
    ensures
        resp@ == switching_protocols_spec(accept@),
{
    let mut resp = String::from_str(
        "HTTP/1.1 101 Switching Protocols\r\nUpgrade: websocket\r\nConnection: Upgrade\r\nSec-WebSocket-Accept: ",
    );
    resp.append(accept);
    resp.append("\r\nSec-WebSocket-Version: 13\r\n\r\n");
    resp
}

/// The answer to a handshake whose key is `key`: switching protocols, with
/// the accept value of the key.
pub fn handshake_response(key: &String) -> (resp: String)
    requires
        key@.len() < 0x0400_0000_0000_0000,
    ensures
        resp@ == handshake_response_spec(key@),
        resp@ == switching_protocols_spec(accept_key(key@)),
{
    let accept = gen_key(key);
    switching_protocols(accept.as_str())
}

/// The client's key, if its header has one.
pub fn socket_key(header: &Header) -> (k: Option<&String>)
    ensures
        k is Some <==> header.fields@.contains_key(key_field()),
        k matches Some(v) ==> v@ == header.fields@[key_field()],
{
    let name = String::from_str("Sec-WebSocket-Key");
    header.fields.get(&name)
}

/// A fresh client waits for its handshake to be readable, then for its
/// answer to be writable, then for frames to be readable: reading the
/// handshake and answering it bring the interest back where it began.
pub proof fn law_handshake_interest_round(i: EventSet)
    requires
        i == EventSet::readable_spec(),
    ensures
        i.difference_spec(EventSet::readable_spec()).union_spec(EventSet::writable_spec())
            == EventSet::writable_spec(),
        i.difference_spec(EventSet::readable_spec()).union_spec(
            EventSet::writable_spec(),
        ).difference_spec(EventSet::writable_spec()).union_spec(EventSet::readable_spec()) == i,
{
}

/// A client whose handshake came in one read is answered with the accept
/// value of the key on the last `Sec-WebSocket-Key` line of that handshake.
pub proof fn law_answer_uses_last_key(buf: Seq<u8>, i: int)
    requires
        0 <= i < header_lines(buf).len(),
        line_key(header_lines(buf)[i]) == key_field(),
        forall|j: int|
            i < j < header_lines(buf).len() ==> line_key(#[trigger] header_lines(buf)[j])
                != key_field(),
    ensures
        fields_after(Map::empty(), header_lines(buf)).contains_key(key_field()),
        handshake_response_spec(fields_after(Map::empty(), header_lines(buf))[key_field()])
            == handshake_response_spec(line_value(header_lines(buf)[i])),
{
    law_last_field_wins(Map::empty(), header_lines(buf), key_field(), i);
}

/// What an event asks of the caller.
#[derive(Clone, Copy, Debug, PartialEq, Eq, Structural)]
pub enum Ready {
    /// Accept a client on the listening socket, then call `accept`.
    Accept,
    /// Read the client's handshake, then call `read_handshake`.
    ReadHandshake,
    /// Read a frame from a connected client.
    ReadFrame,
    /// Call `write_handshake`, then write the answer to the client.
    WriteHandshake,
}

/// The handshaking server: the last token it gave out and its clients.
pub struct MyHandler {
    i: usize,
    socks: HashMap<usize, HandshakeClient>,
}

impl MyHandler {
    /// The last token given out.
    pub closed spec fn counter(&self) -> usize {
        self.i
    }

    /// The clients, by token.
    pub closed spec fn clients(&self) -> Map<usize, HandshakeClient> {
        self.socks@
    }

    /// The clients are exactly the tokens from 1 to the last one given out,
    /// and each is consistent.
    pub open spec fn wf(&self) -> bool {
        &&& self.clients().dom() == Set::new(|k: usize| 1 <= k <= self.counter())
        &&& forall|k: usize| #[trigger]
            self.clients().contains_key(k) ==> self.clients()[k].consistent()
    }

    /// What every handshaking server keeps over any sequence of calls:
    /// `new` makes a well-formed server and `accept`, `read_handshake` and
    /// `write_handshake` each keep it so. Its clients are then exactly the
    /// tokens from 1 to the last given out, and a client is connected only
    /// once it has been answered with the accept value of its key.
    pub proof fn law_handshake_invariant(&self)
        requires
            self.wf(),
        ensures
            forall|k: usize| 1 <= k <= self.counter() <==> #[trigger] self.clients().contains_key(k),
            forall|k: usize| #[trigger]
                self.clients().contains_key(k) && self.clients()[k].state == ClientState::Connected
                    ==> self.clients()[k].header.fields@.contains_key(key_field())
                    && self.clients()[k].answer@ == handshake_response_spec(
                    self.clients()[k].header.fields@[key_field()],
                ),
    {
        assert forall|k: usize| 1 <= k <= self.counter() <==> #[trigger] self.clients().contains_key(k) by {
            assert(self.clients().dom().contains(k) == Set::new(|j: usize| 1 <= j <= self.counter()).contains(k));
        }
    }

    /// A server with no clients.
    pub fn new() -> (h: MyHandler)
        ensures
            h.wf(),
            h.counter() == 0,
            h.clients() == Map::<usize, HandshakeClient>::empty(),
    {
        let h = MyHandler { i: 0, socks: HashMap::new() };
        assert(h.clients().dom() =~= Set::new(|k: usize| 1 <= k <= h.counter()));
        h
    }

    /// The last token given out.
    pub fn last_token(&self) -> (t: usize)
        ensures
            t == self.counter(),
    {
        self.i
    }

    /// The client of `token`, if there is one.
    pub fn client(&self, token: usize) -> (c: Option<&HandshakeClient>)
        ensures
            c is Some <==> self.clients().contains_key(token),
            c matches Some(v) ==> *v == self.clients()[token],
    {
        self.socks.get(&token)
    }

    /// What an event on `token` asks for. A readable event on the listening
    /// socket accepts a client; a readable event on a client reads its
    /// handshake, or a frame once it is connected; any other event answers
    /// the client's handshake.
    pub fn ready(&self, token: usize, events: EventSet) -> (r: Ready)
        requires
            (events.readable && token == SERVER) || self.clients().contains_key(token),
        ensures
            events.readable && token == SERVER ==> r == Ready::Accept,
            events.readable && token != SERVER ==> r == (if self.clients()[token].state
                == ClientState::Connected {
                Ready::ReadFrame
            } else {
                Ready::ReadHandshake
            }),
            !events.readable ==> r == Ready::WriteHandshake,
    {
        if events.is_readable() {
            if token == SERVER {
                Ready::Accept
            } else {
                match self.socks.get(&token) {
                    Some(c) => {
                        if c.state == ClientState::Connected {
                            Ready::ReadFrame
                        } else {
                            Ready::ReadHandshake
                        }
                    },
                    None => Ready::ReadHandshake,
                }
            }
        } else {
            Ready::WriteHandshake
        }
    }

    /// Takes in a newly accepted client under the next token, and gives the
    /// registration that makes it readable.
    pub fn accept(&mut self) -> (reg: Registration)
        requires
            old(self).wf(),
            old(self).counter() < usize::MAX,
        ensures
            final(self).wf(),
            final(self).counter() == old(self).counter() + 1,
            !old(self).clients().contains_key(final(self).counter()),
            final(self).clients().dom() == old(self).clients().dom().insert(final(self).counter()),
            final(self).clients()[final(self).counter()].is_fresh(),
            forall|k: usize|
                k != final(self).counter() ==> #[trigger] final(self).clients().get(k)
                    == old(self).clients().get(k),
            reg == (Registration {
                token: final(self).counter(),
                interest: EventSet::readable_spec(),
                opts: PollOpt::edge_oneshot_spec(),
            }),
    {
        self.i = self.i + 1;
        let tok = self.i;
        self.socks.insert(tok, HandshakeClient::new());
        proof {
            assert(self.clients().dom() =~= old(self).clients().dom().insert(tok));
            assert(self.clients().dom() =~= Set::new(|k: usize| 1 <= k <= self.counter()));
        }
        Registration { token: tok, interest: EventSet::readable(), opts: PollOpt::edge_oneshot() }
    }

    /// Parses the handshake `buf` that the client of `token` sent into its
    /// header, and turns the client from reading to writing its answer.
    pub fn read_handshake(&mut self, token: usize, buf: &[u8]) -> (reg: Registration)
        requires
            old(self).wf(),
            old(self).clients().contains_key(token),
            old(self).clients()[token].state != ClientState::Connected,
            request_parsable(buf@),
        ensures
            final(self).wf(),
            final(self).counter() == old(self).counter(),
            final(self).clients().dom() == old(self).clients().dom(),
            forall|k: usize|
                k != token ==> #[trigger] final(self).clients().get(k) == old(self).clients().get(
                    k,
                ),
            ({
                let c = final(self).clients()[token];
                let o = old(self).clients()[token];
                &&& c.header.method@ == "Get"@
                &&& c.header.uri@ == request_uri(buf@)
                &&& c.header.http_version@ == "1.1"@
                &&& c.header.fields@ == fields_after(o.header.fields@, header_lines(buf@))
                &&& c.interest == o.interest.difference_spec(EventSet::readable_spec()).union_spec(
                    EventSet::writable_spec(),
                )
                &&& c.state == ClientState::HandshakeResponse
                &&& state_rank(o.state) <= state_rank(c.state)
            }),
            reg == (Registration {
                token,
                interest: final(self).clients()[token].interest,
                opts: PollOpt::edge_oneshot_spec(),
            }),
    {
        let mut c = self.socks.remove(&token).unwrap();
        Parser::new().parser(buf, &mut c.header);
        c.interest.remove(EventSet::readable());
        c.interest.insert(EventSet::writable());
        c.state = ClientState::HandshakeResponse;
        let interest = c.interest;
        self.socks.insert(token, c);
        proof {
            assert(self.clients().dom() =~= old(self).clients().dom());
        }
        Registration { token, interest, opts: PollOpt::edge_oneshot() }
    }

    /// Answers the handshake of the client of `token`: the answer to write,
    /// and the registration that turns the client back to reading, now
    /// connected.
    pub fn write_handshake(&mut self, token: usize) -> (out: (String, Registration))
        requires
            old(self).wf(),
            old(self).clients().contains_key(token),
            old(self).clients()[token].header.fields@.contains_key(key_field()),
            old(self).clients()[token].header.fields@[key_field()].len() < 0x0400_0000_0000_0000,
        ensures
            final(self).wf(),
            final(self).counter() == old(self).counter(),
            final(self).clients().dom() == old(self).clients().dom(),
            forall|k: usize|
                k != token ==> #[trigger] final(self).clients().get(k) == old(self).clients().get(
                    k,
                ),
            ({
                let c = final(self).clients()[token];
                let o = old(self).clients()[token];
                &&& out.0@ == handshake_response_spec(o.header.fields@[key_field()])
                &&& c.header == o.header
                &&& c.interest == o.interest.difference_spec(EventSet::writable_spec()).union_spec(
                    EventSet::readable_spec(),
                )
                &&& c.state == ClientState::Connected
                &&& c.answer@ == out.0@
                &&& state_rank(o.state) <= state_rank(c.state)
            }),
            out.1 == (Registration {
                token,
                interest: final(self).clients()[token].interest,
                opts: PollOpt::edge_oneshot_spec(),
            }),
    {
        let mut c = self.socks.remove(&token).unwrap();
        let resp = match socket_key(&c.header) {
            Some(v) => handshake_response(v),
            None => String::new(),
        };
        c.interest.remove(EventSet::writable());
        c.interest.insert(EventSet::readable());
        c.state = ClientState::Connected;
        c.answer = Ghost(resp@);
        let interest = c.interest;
        self.socks.insert(token, c);
        proof {
            assert(self.clients().dom() =~= old(self).clients().dom());
        }
        (resp, Registration { token, interest, opts: PollOpt::edge_oneshot() })
    }
}

} // verus!
