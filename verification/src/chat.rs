//! The broadcast chat server: every message that a client sends is queued
//! to every connected client. Connections live in a slab whose indices are
//! their tokens.

use vstd::prelude::*;
use crate::connection::{buffers_view, ConnectionView};
use crate::events::{EventSet, PollOpt, Registration};
use crate::result::{is_empty_queue_failure, IoFailure};

verus! {

/// The token of the listening socket.
pub const SERVER: usize = 1;

/// The first token given to a client.
pub const FIRST_CLIENT: usize = 2;

/// How many clients the server holds at once.
pub const MAX_CLIENTS: usize = 1024;

/// A client connection of the chat server. The socket stays with the
/// caller.
pub struct Connection {
    token: usize,
    interest: EventSet,
    queue: Vec<Vec<u8>>,
}

impl View for Connection {
    type V = ConnectionView;

    closed spec fn view(&self) -> ConnectionView {
        ConnectionView { token: self.token, interest: self.interest, queue: buffers_view(self.queue@) }
    }
}

/// A connection as `Connection::new` makes it for `token`: waiting for
/// readability, with nothing to send.
pub open spec fn new_connection(token: usize) -> ConnectionView {
    ConnectionView { token, interest: EventSet::readable_spec(), queue: Seq::<Seq<u8>>::empty() }
}

impl Connection {
    /// A connection that waits for readability, with nothing to send.
    pub fn new(token: usize) -> (c: Connection)
        ensures
            c@ == new_connection(token),
    {
        let c = Connection { token, interest: EventSet::readable(), queue: Vec::new() };
        assert(c@.queue =~= Seq::<Seq<u8>>::empty());
        c
    }

    /// The connection's token.
    pub fn token(&self) -> (t: usize)
        ensures
            t == self@.token,
    {
        self.token
    }

    /// The readiness the connection waits for.
    pub fn interest(&self) -> (i: EventSet)
        ensures
            i == self@.interest,
    {
        self.interest
    }

    /// Waits for readability, and gives the registration of the connection.
    pub fn register(&mut self) -> (reg: Registration)
        ensures
            final(self)@ == old(self)@.awaiting(EventSet::readable_spec()),
            reg == (Registration {
                token: final(self)@.token,
                interest: final(self)@.interest,
                opts: PollOpt::edge_oneshot_spec(),
            }),
    {
        self.interest.insert(EventSet::readable());
        Registration { token: self.token, interest: self.interest, opts: PollOpt::edge_oneshot() }
    }

    /// Waits for writability as well, and gives the registration that
    /// renews the connection's interest.
    pub fn reregister(&mut self) -> (reg: Registration)
        ensures
            final(self)@ == old(self)@.awaiting(EventSet::writable_spec()),
            reg == (Registration {
                token: final(self)@.token,
                interest: final(self)@.interest,
                opts: PollOpt::edge_oneshot_spec(),
            }),
    {
        self.interest.insert(EventSet::writable());
        Registration { token: self.token, interest: self.interest, opts: PollOpt::edge_oneshot() }
    }

    /// After a read of `n` bytes: a read that gave bytes renews the
    /// registration, one that gave none does not.
    pub fn read(&mut self, n: usize) -> (reg: Option<Registration>)
        ensures
            n == 0 ==> reg is None && final(self)@ == old(self)@,
            n > 0 ==> final(self)@ == old(self)@.awaiting(EventSet::writable_spec()) && reg
                == Some(
                Registration {
                    token: final(self)@.token,
                    interest: final(self)@.interest,
                    opts: PollOpt::edge_oneshot_spec(),
                },
            ),
    {
        if n == 0 {
            None
        } else {
            Some(self.reregister())
        }
    }

    /// The first half of a writable event: takes the buffer to write, the
    /// last one queued, or fails when the queue is empty.
    pub fn write(&mut self) -> (r: Result<Vec<u8>, IoFailure>)
        ensures
            old(self)@.queue.len() == 0 ==> (r matches Err(e) && is_empty_queue_failure(e))
                && final(self)@ == old(self)@,
            old(self)@.queue.len() > 0 ==> (r matches Ok(b) && b@ == old(self)@.queue.last()
                && final(self)@ == old(self)@.taken()),
    {
        match self.queue.pop() {
            Some(buf) => {
                proof {
                    assert(self@.queue =~= old(self)@.queue.drop_last());
                }
                Ok(buf)
            },
            None => Err(IoFailure::empty_queue()),
        }
    }

    /// The second half of a writable event, with what the write of `buf`
    /// came to: `Ok(0)` puts the buffer back on the queue, `Ok(n)` drops it,
    /// an error is returned with the connection left as it is.
    pub fn write_done(&mut self, buf: Vec<u8>, outcome: std::io::Result<usize>) -> (r:
        std::io::Result<()>)
        ensures
            match outcome {
                Err(e) => (r matches Err(x) && x == e && final(self)@ == old(self)@),
                Ok(written) => r is Ok && final(self)@ == old(self)@.written(buf@, written == 0),
            },
    {
        match outcome {
            Err(e) => {
                return Err(e);
            },
            Ok(written) => {
                if written == 0 {
                    let ghost b = buf@;
                    self.queue.push(buf);
                    proof {
                        assert(self@.queue =~= old(self)@.queue.push(b));
                    }
                }
            },
        }
        if self.queue.len() == 0 {
            self.interest.remove(EventSet::writable());
        }
        Ok(())
    }

    /// Queues `msg`, and waits for writability.
    pub fn send(&mut self, msg: Vec<u8>) -> (r: std::io::Result<()>)
        ensures
            r is Ok,
            final(self)@ == old(self)@.queued(msg@),
            final(self)@.interest.writable,
            final(self)@.interest == (EventSet {
                readable: old(self)@.interest.readable,
                writable: true,
                error: old(self)@.interest.error,
                hup: old(self)@.interest.hup,
            }),
            final(self)@.queue == old(self)@.queue.push(msg@),
    {
        let ghost m = msg@;
        self.queue.push(msg);
        proof {
            assert(self@.queue =~= old(self)@.queue.push(m));
        }
        self.interest.insert(EventSet::writable());
        Ok(())
    }
}

/// A `slab::Slab` of connections, indexed by token: a fixed number of
/// slots, whose indices start at an offset. Its contents, the number of its
/// slots and its offset are the three names below, and it is reached only
/// through the functions that follow them.
#[verifier::external_body]
pub struct ConnectionSlab {
    slots: slab::Slab<Connection, usize>,
}

/// The connections that a slab holds, by index.
pub uninterp spec fn slab_contents(s: ConnectionSlab) -> Map<usize, ConnectionView>;

/// The number of slots that a slab was made with.
pub uninterp spec fn slab_capacity(s: ConnectionSlab) -> nat;

/// The index of a slab's first slot.
pub uninterp spec fn slab_offset(s: ConnectionSlab) -> nat;

/// `slab::Slab::new_starting_at`: an empty slab of `capacity` slots whose
/// indices start at `offset`. The crate builds the slots from
/// `1..capacity + 1` and gives out `slot + offset`, so both stay in range.
#[verifier::external_body]
fn slab_new_starting_at(offset: usize, capacity: usize) -> (s: ConnectionSlab)
    requires
        offset + capacity < usize::MAX,
    ensures
        slab_contents(s).dom() == Set::<usize>::empty(),
        slab_capacity(s) == capacity,
        slab_offset(s) == offset,
{
    ConnectionSlab { slots: slab::Slab::new_starting_at(offset, capacity) }
}

/// `slab::Slab::contains`: whether the slab holds an item at `idx`, an
/// index within its slots. (The crate bounds an index by the capacity of its
/// `Vec` of slots, which may exceed the number of slots, and then indexes
/// that `Vec`; so only indices of slots are asked.)
#[verifier::external_body]
fn slab_contains(s: &ConnectionSlab, idx: usize) -> (b: bool)
    requires
        slab_offset(*s) <= idx < slab_offset(*s) + slab_capacity(*s),
    ensures
        b == slab_contents(*s).contains_key(idx),
{
    s.slots.contains(idx)
}

/// `slab::Slab::insert_with`, with a new connection for the index that the
/// slab hands out. A free slot is taken exactly when one is left; its index
/// is one that the slab did not hold, between its offset and its offset
/// plus its capacity. Which free slot is taken is not stated.
#[verifier::external_body]
fn slab_insert_new_connection(s: &mut ConnectionSlab) -> (r: Option<usize>)
    requires
        slab_contents(*old(s)).dom().finite(),
        slab_contents(*old(s)).dom().len() <= slab_capacity(*old(s)),
    ensures
        slab_capacity(*final(s)) == slab_capacity(*old(s)),
        slab_offset(*final(s)) == slab_offset(*old(s)),
        r is None <==> slab_contents(*old(s)).dom().len() == slab_capacity(*old(s)),
        r is None ==> slab_contents(*final(s)) == slab_contents(*old(s)),
        r matches Some(k) ==> {
            &&& !slab_contents(*old(s)).contains_key(k)
            &&& slab_offset(*old(s)) <= k < slab_offset(*old(s)) + slab_capacity(*old(s))
            &&& slab_contents(*final(s)).dom() == slab_contents(*old(s)).dom().insert(k)
            &&& slab_contents(*final(s))[k] == new_connection(k)
            &&& forall|j: usize|
                j != k ==> #[trigger] slab_contents(*final(s)).get(j) == slab_contents(
                    *old(s),
                ).get(j)
        },
{
    s.slots.insert_with(|token| Connection::new(token))
}

/// `IndexMut` of `slab::Slab` at an index that it holds: the item, which the
/// slab holds again once the borrow ends.
#[verifier::external_body]
fn slab_get_mut(s: &mut ConnectionSlab, idx: usize) -> (c: &mut Connection)
    requires
        slab_contents(*old(s)).contains_key(idx),
    ensures
        c@ == slab_contents(*old(s))[idx],
        slab_contents(*final(s)) == slab_contents(*old(s)).insert(idx, final(c)@),
        slab_capacity(*final(s)) == slab_capacity(*old(s)),
        slab_offset(*final(s)) == slab_offset(*old(s)),
{
    &mut s.slots[idx]
}

/// The bytes of `message`, in a buffer of their own.
fn slab_message(message: &[u8]) -> (v: Vec<u8>)
    ensures
        v@ == message@,
{
    vstd::slice::slice_to_vec(message)
}

/// `slab::Slab::remove` of an index that the slab holds: the slot is freed.
/// (Removing an index that is free would corrupt the crate's free list.)
#[verifier::external_body]
fn slab_remove(s: &mut ConnectionSlab, idx: usize) -> (r: Option<Connection>)
    requires
        slab_contents(*old(s)).contains_key(idx),
    ensures
        r matches Some(c) && c@ == slab_contents(*old(s))[idx],
        slab_contents(*final(s)) == slab_contents(*old(s)).remove(idx),
        slab_capacity(*final(s)) == slab_capacity(*old(s)),
        slab_offset(*final(s)) == slab_offset(*old(s)),
{
    s.slots.remove(idx)
}

/// One thing that an event asks of the caller: accept a client, read from
/// the client, or write to it.
#[derive(Clone, Copy, Debug, PartialEq, Eq, Structural)]
pub enum Step {
    Accept,
    Read,
    Write,
}

/// The steps of an event on `token`, in the order they are to be taken: the
/// server's token accepts a client; a client's token reads when the event is
/// readable, and then writes when it is writable.
pub open spec fn ready_steps(server: usize, token: usize, events: EventSet) -> Seq<Step> {
    if token == server {
        seq![Step::Accept]
    } else {
        (if events.readable {
            seq![Step::Read]
        } else {
            Seq::empty()
        }) + (if events.writable {
            seq![Step::Write]
        } else {
            Seq::empty()
        })
    }
}

/// The chat server: its token and its clients' connections. The listening
/// socket and the database connection stay with the caller.
pub struct Server {
    token: usize,
    socks: ConnectionSlab,
}

/// An event on a client reads exactly when it is readable and writes
/// exactly when it is writable, each independently of the other, and reads
/// before it writes; an event on the server's token only accepts.
pub proof fn law_ready_steps(server: usize, token: usize, events: EventSet)
    ensures
        token == server ==> ready_steps(server, token, events) == seq![Step::Accept],
        token != server ==> {
            let steps = ready_steps(server, token, events);
            &&& (steps.contains(Step::Read) <==> events.readable)
            &&& (steps.contains(Step::Write) <==> events.writable)
            &&& !steps.contains(Step::Accept)
            &&& steps.len() <= 2
            &&& (events.readable ==> steps[0] == Step::Read)
            &&& (events.writable ==> steps.last() == Step::Write)
        },
{
    if token != server {
        let steps = ready_steps(server, token, events);
        if events.readable {
            assert(steps[0] == Step::Read);
        }
        if events.writable {
            assert(steps[steps.len() - 1] == Step::Write);
        }
        if steps.contains(Step::Read) {
            let i = choose|i: int| 0 <= i < steps.len() && steps[i] == Step::Read;
            assert(steps[i] == Step::Read);
        }
        if steps.contains(Step::Write) {
            let i = choose|i: int| 0 <= i < steps.len() && steps[i] == Step::Write;
            assert(steps[i] == Step::Write);
        }
        if steps.contains(Step::Accept) {
            let i = choose|i: int| 0 <= i < steps.len() && steps[i] == Step::Accept;
            assert(steps[i] == Step::Accept);
        }
    }
}

impl Server {
    /// The server's own token.
    pub closed spec fn token_view(&self) -> usize {
        self.token
    }

    /// The client connections, by token.
    pub closed spec fn connections(&self) -> Map<usize, ConnectionView> {
        slab_contents(self.socks)
    }

    /// The slab spans the client tokens, and each connection sits under its
    /// own token.
    pub closed spec fn wf(&self) -> bool {
        &&& self.token == SERVER
        &&& slab_offset(self.socks) == FIRST_CLIENT
        &&& slab_capacity(self.socks) == MAX_CLIENTS
        &&& self.connections().dom().finite()
        &&& self.connections().dom().len() <= MAX_CLIENTS
        &&& forall|k: usize| #[trigger]
            self.connections().contains_key(k) ==> is_client_token(k)
                && self.connections()[k].token == k
    }

    /// What a well-formed server keeps: its own token is `SERVER`, it holds
    /// finitely many clients, at most `MAX_CLIENTS`, each under a client
    /// token, which is never the server's, and each connection carries the
    /// token it sits under.
    pub proof fn law_server_tokens(&self)
        requires
            self.wf(),
        ensures
            self.token_view() == SERVER,
            self.connections().dom().finite(),
            self.connections().dom().len() <= MAX_CLIENTS,
            forall|k: usize| #[trigger]
                self.connections().contains_key(k) ==> is_client_token(k) && k
                    != self.token_view() && self.connections()[k].token == k,
    {
    }

    /// A server with no clients.
    pub fn new() -> (s: Server)
        ensures
            s.wf(),
            s.token_view() == SERVER,
            s.connections().dom() == Set::<usize>::empty(),
    {
        Server { token: SERVER, socks: slab_new_starting_at(FIRST_CLIENT, MAX_CLIENTS) }
    }

    /// The registration of the listening socket: readable, edge triggered,
    /// oneshot.
    pub fn register(&self) -> (reg: Registration)
        ensures
            reg == (Registration {
                token: self.token_view(),
                interest: EventSet::readable_spec(),
                opts: PollOpt::edge_oneshot_spec(),
            }),
    {
        Registration { token: self.token, interest: EventSet::readable(), opts: PollOpt::edge_oneshot() }
    }

    /// The registration that rearms the listening socket.
    pub fn reregister(&self) -> (reg: Registration)
        ensures
            reg == (Registration {
                token: self.token_view(),
                interest: EventSet::readable_spec(),
                opts: PollOpt::edge_oneshot_spec(),
            }),
    {
        Registration { token: self.token, interest: EventSet::readable(), opts: PollOpt::edge_oneshot() }
    }

    /// Whether a client holds `token`.
    pub fn contains(&self, token: usize) -> (b: bool)
        requires
            self.wf(),
        ensures
            b == self.connections().contains_key(token),
    {
        if token < FIRST_CLIENT || token >= FIRST_CLIENT + MAX_CLIENTS {
            return false;
        }
        slab_contains(&self.socks, token)
    }

    /// What an event on `token` asks for, in order: the server's token
    /// accepts a client, a client's token reads and then writes as the event
    /// says.
    pub fn ready(&self, token: usize, events: EventSet) -> (steps: Vec<Step>)
        ensures
            steps@ == ready_steps(self.token_view(), token, events),
            token == self.token_view() ==> steps@ == seq![Step::Accept],
            token != self.token_view() ==> {
                &&& (steps@.contains(Step::Read) <==> events.readable)
                &&& (steps@.contains(Step::Write) <==> events.writable)
                &&& !steps@.contains(Step::Accept)
                &&& steps@.len() <= 2
            },
    {
        let mut steps: Vec<Step> = Vec::new();
        if token == self.token {
            steps.push(Step::Accept);
        } else {
            if events.is_readable() {
                steps.push(Step::Read);
            }
            if events.is_writable() {
                steps.push(Step::Write);
            }
        }
        proof {
            assert(steps@ =~= ready_steps(self.token_view(), token, events));
            law_ready_steps(self.token_view(), token, events);
        }
        steps
    }

    /// Takes in a newly accepted client under a free token, and gives the
    /// registration that makes it readable; `None` when every token is in
    /// use.
    pub fn accept(&mut self) -> (reg: Option<Registration>)
        requires
            old(self).wf(),
        ensures
            final(self).wf(),
            final(self).token_view() == old(self).token_view(),
            reg is None <==> old(self).connections().dom().len() == MAX_CLIENTS,
            final(self).connections().dom().len() <= old(self).connections().dom().len() + 1,
            reg is None ==> final(self).connections() == old(self).connections(),
            reg matches Some(r) ==> {
                &&& !old(self).connections().contains_key(r.token)
                &&& is_client_token(r.token)
                &&& final(self).connections() == old(self).connections().insert(
                    r.token,
                    new_connection(r.token).awaiting(EventSet::readable_spec()),
                )
                &&& r == (Registration {
                    token: r.token,
                    interest: EventSet::readable_spec(),
                    opts: PollOpt::edge_oneshot_spec(),
                })
            },
    {
        match slab_insert_new_connection(&mut self.socks) {
            Some(token) => {
                let ghost mid = self.connections();
                let c = slab_get_mut(&mut self.socks, token);
                let reg = c.register();
                proof {
                    let target = old(self).connections().insert(
                        token,
                        new_connection(token).awaiting(EventSet::readable_spec()),
                    );
                    assert(self.connections().dom() =~= target.dom());
                    assert forall|j: usize| #[trigger]
                        target.contains_key(j) implies self.connections()[j] == target[j] by {
                        if j != token {
                            assert(mid.get(j) == old(self).connections().get(j));
                        }
                    }
                    assert(self.connections() =~= target);
                }
                Some(reg)
            },
            None => None,
        }
    }

    /// A read event on the client `token` that read `n` bytes, `message`:
    /// the reader's registration is renewed when it read bytes, then
    /// `message` is queued to every client, in token order, each of which
    /// then waits for writability. Gives the reader's renewal and each
    /// client's registration, for the caller to hand to the event loop; a
    /// client whose registration fails is to be reset.
    pub fn read(&mut self, token: usize, n: usize, message: &[u8]) -> (regs: (
        Option<Registration>,
        Vec<Registration>,
    ))
        requires
            old(self).wf(),
            old(self).connections().contains_key(token),
        ensures
            final(self).wf(),
            final(self).token_view() == old(self).token_view(),
            final(self).connections().dom() == old(self).connections().dom(),
            forall|k: usize| #[trigger]
                old(self).connections().contains_key(k) ==> final(self).connections()[k]
                    == old(self).connections()[k].queued(message@),
            forall|k: usize| #[trigger]
                final(self).connections().contains_key(k) ==> final(self).connections()[k].interest.writable,
            n == 0 ==> regs.0 is None,
            n > 0 ==> regs.0 == Some(
                Registration {
                    token,
                    interest: final(self).connections()[token].interest,
                    opts: PollOpt::edge_oneshot_spec(),
                },
            ),
            forall|j: int|
                0 <= j < regs.1@.len() ==> final(self).connections().contains_key(
                    (#[trigger] regs.1@[j]).token,
                ) && regs.1@[j].token != final(self).token_view() && regs.1@[j].interest.writable
                    && regs.1@[j] == (Registration {
                    token: regs.1@[j].token,
                    interest: final(self).connections()[regs.1@[j].token].interest,
                    opts: PollOpt::edge_oneshot_spec(),
                }),
            forall|i: int, j: int|
                0 <= i < j < regs.1@.len() ==> (#[trigger] regs.1@[i]).token < (#[trigger] regs.1@[j]).token,
            forall|k: usize| #[trigger]
                final(self).connections().contains_key(k) ==> exists|j: int|
                    0 <= j < regs.1@.len() && (#[trigger] regs.1@[j]).token == k,
    {
        let ghost start = self.connections();
        let c = slab_get_mut(&mut self.socks, token);
        let first = c.read(n);
        let ghost mid = self.connections();
        proof {
            assert(mid.dom() =~= start.dom());
        }
        let mut regs: Vec<Registration> = Vec::new();
        let mut k: usize = FIRST_CLIENT;
        let end: usize = FIRST_CLIENT + MAX_CLIENTS;
        while k < end
            invariant
                FIRST_CLIENT <= k <= end,
                end == FIRST_CLIENT + MAX_CLIENTS,
                self.token == SERVER,
                slab_offset(self.socks) == FIRST_CLIENT,
                slab_capacity(self.socks) == MAX_CLIENTS,
                self.connections().dom() == mid.dom(),
                forall|key: usize| #[trigger]
                    self.connections().contains_key(key) ==> is_client_token(key)
                        && self.connections()[key].token == key,
                forall|key: usize| #[trigger]
                    self.connections().contains_key(key) ==> self.connections()[key] == (if key
                        < k {
                        mid[key].queued(message@)
                    } else {
                        mid[key]
                    }),
                forall|j: int|
                    0 <= j < regs@.len() ==> self.connections().contains_key(
                        (#[trigger] regs@[j]).token,
                    ) && regs@[j].token < k && regs@[j] == (Registration {
                        token: regs@[j].token,
                        interest: self.connections()[regs@[j].token].interest,
                        opts: PollOpt::edge_oneshot_spec(),
                    }),
                forall|i: int, j: int|
                    0 <= i < j < regs@.len() ==> (#[trigger] regs@[i]).token < (#[trigger] regs@[j]).token,
                forall|key: usize| #[trigger]
                    self.connections().contains_key(key) && key < k ==> exists|j: int|
                        0 <= j < regs@.len() && (#[trigger] regs@[j]).token == key,
            decreases end - k,
        {
            if slab_contains(&self.socks, k) {
                let ghost before = self.connections();
                let c = slab_get_mut(&mut self.socks, k);
                let _ = c.send(slab_message(message));
                let reg = c.reregister();
                proof {
                    assert(before[k] == mid[k]);
                    assert(mid[k].queued(message@).awaiting(EventSet::writable_spec())
                        == mid[k].queued(message@)) by {
                        assert(mid[k].queued(message@).interest.union_spec(
                            EventSet::writable_spec(),
                        ) == mid[k].queued(message@).interest);
                    }
                    assert(self.connections() == before.insert(k, mid[k].queued(message@)));
                    assert(self.connections().dom() =~= mid.dom());
                }
                let ghost prev = regs@;
                regs.push(reg);
                proof {
                    let last = regs@.len() - 1;
                    assert(regs@ == prev.push(reg));
                    assert(regs@[last].token == k);
                    assert forall|key: usize| #[trigger]
                        self.connections().contains_key(key) && key < k + 1 implies exists|j: int|
                        0 <= j < regs@.len() && (#[trigger] regs@[j]).token == key by {
                        if key == k {
                            assert(regs@[last].token == key);
                        } else {
                            assert(before.contains_key(key) && key < k);
                            let j0 = choose|j: int|
                                0 <= j < prev.len() && (#[trigger] prev[j]).token == key;
                            assert(regs@[j0] == prev[j0]);
                        }
                    }
                }
            }
            k = k + 1;
        }
        proof {
            assert forall|key: usize| #[trigger]
                old(self).connections().contains_key(key) implies self.connections()[key]
                == old(self).connections()[key].queued(message@) by {
                if key == token && n > 0 {
                    assert(mid[key] == start[key].awaiting(EventSet::writable_spec()));
                    assert(mid[key].queued(message@) == start[key].queued(message@)) by {
                        assert(mid[key].queued(message@).interest == start[key].queued(
                            message@,
                        ).interest);
                    }
                } else {
                    assert(mid[key] == start[key]);
                }
            }
        }
        (first, regs)
    }

    /// The first half of a writable event on the client `token`: the
    /// buffer to write, taken off its queue.
    pub fn write(&mut self, token: usize) -> (r: Result<Vec<u8>, IoFailure>)
        requires
            old(self).wf(),
            old(self).connections().contains_key(token),
        ensures
            final(self).wf(),
            final(self).token_view() == old(self).token_view(),
            ({
                let c = old(self).connections()[token];
                &&& c.queue.len() == 0 ==> (r matches Err(e) && is_empty_queue_failure(e))
                    && final(self).connections() == old(self).connections()
                &&& c.queue.len() > 0 ==> (r matches Ok(b) && b@ == c.queue.last() && final(self).connections() == old(self).connections().insert(token, c.taken()))
            }),
    {
        let c = slab_get_mut(&mut self.socks, token);
        let r = c.write();
        proof {
            assert(self.connections().dom() =~= old(self).connections().dom());
        }
        r
    }

    /// The second half of a writable event on the client `token`, with
    /// what the write of `buf` came to.
    pub fn write_done(&mut self, token: usize, buf: Vec<u8>, outcome: std::io::Result<usize>) -> (r:
        std::io::Result<()>)
        requires
            old(self).wf(),
            old(self).connections().contains_key(token),
        ensures
            final(self).wf(),
            final(self).token_view() == old(self).token_view(),
            match outcome {
                Err(e) => (r matches Err(x) && x == e && final(self).connections() == old(self).connections()),
                Ok(written) => r is Ok && final(self).connections() == old(self).connections().insert(
                    token,
                    old(self).connections()[token].written(buf@, written == 0),
                ),
            },
    {
        let c = slab_get_mut(&mut self.socks, token);
        let r = c.write_done(buf, outcome);
        proof {
            assert(self.connections().dom() =~= old(self).connections().dom());
        }
        r
    }

    /// Resets the connection of `token`: the server's own token shuts the
    /// event loop down (`true`); a client's token drops its connection; a
    /// token outside the client range changes nothing. (A free client token
    /// is left out: the slab would overwrite that slot's link in its list of
    /// free slots, and a later insert would panic.)
    pub fn reset_connection(&mut self, token: usize) -> (shutdown: bool)
        requires
            old(self).wf(),
            token == old(self).token_view() || !is_client_token(token) || old(self).connections().contains_key(token),
        ensures
            final(self).wf(),
            final(self).token_view() == old(self).token_view(),
            shutdown == (token == old(self).token_view()),
            shutdown ==> final(self).connections() == old(self).connections(),
            !shutdown ==> final(self).connections() == old(self).connections().remove(token),
    {
        if self.token == token {
            true
        } else if !self.contains(token) {
            proof {
                assert(self.connections() =~= old(self).connections().remove(token));
            }
            false
        } else {
            let _ = slab_remove(&mut self.socks, token);
            proof {
                assert(self.connections().dom() =~= old(self).connections().dom().remove(token));
            }
            false
        }
    }
}

/// A token that the slab hands out to clients.
pub open spec fn is_client_token(k: usize) -> bool {
    FIRST_CLIENT <= k < FIRST_CLIENT + MAX_CLIENTS
}

} // verus!
