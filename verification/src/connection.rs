//! A client connection of the broadcast server: its token, the readiness it
//! waits for, and the queue of buffers it has yet to send.

use vstd::prelude::*;
use crate::events::{EventSet, PollOpt, Registration};
use crate::result::{is_empty_queue_failure, IoFailure};

verus! {

/// The size of the buffer that a readable event reads into.
pub const RECV_CAPACITY: usize = 2048;

/// The contents of a queue of buffers.
pub open spec fn buffers_view(q: Seq<Vec<u8>>) -> Seq<Seq<u8>> {
    q.map_values(|b: Vec<u8>| b@)
}

/// What a connection is, as plain values: its token, the readiness it waits
/// for, and the buffers it has yet to send, oldest first.
pub struct ConnectionView {
    pub token: usize,
    pub interest: EventSet,
    pub queue: Seq<Seq<u8>>,
}

impl ConnectionView {
    /// `m` queued, and writability awaited.
    pub open spec fn queued(self, m: Seq<u8>) -> ConnectionView {
        ConnectionView {
            token: self.token,
            interest: self.interest.union_spec(EventSet::writable_spec()),
            queue: self.queue.push(m),
        }
    }

    /// The last queued buffer taken off the queue to be written.
    pub open spec fn taken(self) -> ConnectionView {
        ConnectionView { token: self.token, interest: self.interest, queue: self.queue.drop_last() }
    }

    /// After a write of `buf` that did not fail: `buf` goes back on the
    /// queue when the write would have blocked; writability is no longer
    /// awaited once the queue is empty.
    pub open spec fn written(self, buf: Seq<u8>, blocked: bool) -> ConnectionView {
        let q = if blocked {
            self.queue.push(buf)
        } else {
            self.queue
        };
        ConnectionView {
            token: self.token,
            interest: if q.len() == 0 {
                self.interest.difference_spec(EventSet::writable_spec())
            } else {
                self.interest
            },
            queue: q,
        }
    }

    /// The kinds of `e` awaited as well.
    pub open spec fn awaiting(self, e: EventSet) -> ConnectionView {
        ConnectionView { token: self.token, interest: self.interest.union_spec(e), queue: self.queue }
    }
}

/// Queuing a message always leaves the connection awaiting writability,
/// whatever its queue held before, empty included; every other kind it
/// awaited stays as it was, and the message goes at the end of the queue.
pub proof fn law_queued_awaits_writability(c: ConnectionView, m: Seq<u8>)
    ensures
        c.queued(m).interest.writable,
        c.queued(m).interest.readable == c.interest.readable,
        c.queued(m).interest.hup == c.interest.hup,
        c.queued(m).interest.error == c.interest.error,
        c.queued(m).queue.len() == c.queue.len() + 1,
        c.queued(m).queue.last() == m,
        c.queued(m).queue.take(c.queue.len() as int) == c.queue,
        c.queued(m).token == c.token,
{
    assert(c.queued(m).queue.take(c.queue.len() as int) =~= c.queue);
}

/// A message just queued is the next buffer to be written: taking it and
/// writing it in full leaves the queue as it was, and writability is still
/// awaited only if other buffers are left.
pub proof fn law_send_then_write(c: ConnectionView, m: Seq<u8>)
    ensures
        c.queued(m).queue.last() == m,
        c.queued(m).taken().written(m, false).token == c.token,
        c.queued(m).taken().written(m, false).queue == c.queue,
        c.queued(m).taken().written(m, false).interest == (if c.queue.len() == 0 {
            c.interest.difference_spec(EventSet::writable_spec())
        } else {
            c.interest.union_spec(EventSet::writable_spec())
        }),
{
    assert(c.queued(m).queue.drop_last() =~= c.queue);
}

/// A write that would block leaves the connection as it was before its
/// buffer was taken.
pub proof fn law_blocked_write_restores(c: ConnectionView)
    requires
        c.queue.len() > 0,
    ensures
        c.taken().written(c.queue.last(), true) == c,
{
    assert(c.queue.drop_last().push(c.queue.last()) =~= c.queue);
}

/// Buffers leave the queue last in, first out: of two messages queued in
/// turn, the second is written first, and the first after it.
pub proof fn law_queue_last_in_first_out(c: ConnectionView, m1: Seq<u8>, m2: Seq<u8>)
    ensures
        c.queued(m1).queued(m2).queue.last() == m2,
        c.queued(m1).queued(m2).taken().queue.last() == m1,
{
    assert(c.queued(m1).queued(m2).taken().queue =~= c.queue.push(m1));
}

/// A connection. The socket stays with the caller.
pub struct Connection {
    token: usize,
    interest: EventSet,
    send_queue: Vec<Vec<u8>>,
}

impl View for Connection {
    type V = ConnectionView;

    closed spec fn view(&self) -> ConnectionView {
        ConnectionView {
            token: self.token,
            interest: self.interest,
            queue: buffers_view(self.send_queue@),
        }
    }
}

impl Connection {
    /// A connection that waits for a hang-up only, with nothing to send.
    pub fn new(token: usize) -> (c: Connection)
        ensures
            c@ == (ConnectionView {
                token,
                interest: EventSet::hup_spec(),
                queue: Seq::<Seq<u8>>::empty(),
            }),
    {
        let c = Connection { token, interest: EventSet::hup(), send_queue: Vec::new() };
        assert(c@.queue =~= Seq::<Seq<u8>>::empty());
        c
    }

    /// The connection's token.
    pub fn token(&self) -> (t: usize)
        ensures
            t == self@.token,
    {
        self.token
    }

    /// The readiness the connection waits for.
    pub fn interest(&self) -> (i: EventSet)
        ensures
            i == self@.interest,
    {
        self.interest
    }

    /// One read of a readable event: `chunk` is what the read gave, or
    /// `None` when it would block. The bytes join `received`; the caller
    /// reads again only when a read filled the whole buffer.
    pub fn readable(received: &mut Vec<u8>, chunk: Option<&[u8]>) -> (more: bool)
        requires
            chunk matches Some(c) ==> old(received)@.len() + c@.len() <= RECV_CAPACITY,
        ensures
            match chunk {
                Some(c) => final(received)@ == old(received)@ + c@ && more == (c@.len()
                    >= RECV_CAPACITY),
                None => final(received)@ == old(received)@ && !more,
            },
    {
        match chunk {
            Some(c) => {
                let n = c.len();
                let mut i: usize = 0;
                let ghost start = received@;
                while i < n
                    invariant
                        i <= n,
                        n == c@.len(),
                        received@ == start + c@.take(i as int),
                    decreases n - i,
                {
                    received.push(c[i]);
                    proof {
                        assert(c@.take(i + 1) =~= c@.take(i as int).push(c@[i as int]));
                    }
                    i = i + 1;
                }
                proof {
                    assert(c@.take(n as int) =~= c@);
                }
                n >= RECV_CAPACITY
            },
            None => false,
        }
    }

    /// The first half of a writable event: takes the buffer to write, the
    /// last one queued, or fails when the queue is empty.
    pub fn writable(&mut self) -> (r: Result<Vec<u8>, IoFailure>)
        ensures
            old(self)@.queue.len() == 0 ==> (r matches Err(e) && is_empty_queue_failure(e))
                && final(self)@ == old(self)@,
            old(self)@.queue.len() > 0 ==> (r matches Ok(b) && b@ == old(self)@.queue.last()
                && final(self)@ == old(self)@.taken()),
    {
        match self.send_queue.pop() {
            Some(buf) => {
                proof {
                    assert(self@.queue =~= old(self)@.queue.drop_last());
                }
                Ok(buf)
            },
            None => Err(IoFailure::empty_queue()),
        }
    }

    /// The second half of a writable event, with what the write of `buf`
    /// came to: `Ok(None)` when it would block, and the buffer goes back on
    /// the queue; `Ok(Some(n))` when it wrote; an error, which is returned
    /// with the connection left as it is.
    pub fn write_done(&mut self, buf: Vec<u8>, outcome: std::io::Result<Option<usize>>) -> (r:
        std::io::Result<()>)
        ensures
            match outcome {
                Err(e) => (r matches Err(x) && x == e && final(self)@ == old(self)@),
                Ok(written) => r is Ok && final(self)@ == old(self)@.written(
                    buf@,
                    written is None,
                ),
            },
    {
        match outcome {
            Err(e) => {
                return Err(e);
            },
            Ok(None) => {
                let ghost b = buf@;
                self.send_queue.push(buf);
                proof {
                    assert(self@.queue =~= old(self)@.queue.push(b));
                }
            },
            Ok(Some(_)) => {},
        }
        if self.send_queue.len() == 0 {
            self.interest.remove(EventSet::writable());
        }
        Ok(())
    }

    /// Queues `message` to be sent, and waits for writability.
    pub fn send_message(&mut self, message: Vec<u8>) -> (r: std::io::Result<()>)
        ensures
            r is Ok,
            final(self)@ == old(self)@.queued(message@),
            final(self)@.interest.writable,
            final(self)@.interest == (EventSet {
                readable: old(self)@.interest.readable,
                writable: true,
                error: old(self)@.interest.error,
                hup: old(self)@.interest.hup,
            }),
            final(self)@.queue == old(self)@.queue.push(message@),
    {
        let ghost m = message@;
        self.send_queue.push(message);
        proof {
            assert(self@.queue =~= old(self)@.queue.push(m));
        }
        self.interest.insert(EventSet::writable());
        Ok(())
    }

    /// Waits for readability as well, and gives the registration of the
    /// connection with the event loop.
    pub fn register(&mut self) -> (reg: Registration)
        ensures
            final(self)@ == old(self)@.awaiting(EventSet::readable_spec()),
            reg == (Registration {
                token: final(self)@.token,
                interest: final(self)@.interest,
                opts: PollOpt::edge_oneshot_spec(),
            }),
    {
        self.interest.insert(EventSet::readable());
        Registration { token: self.token, interest: self.interest, opts: PollOpt::edge_oneshot() }
    }

    /// The registration that renews the connection's interest with the
    /// event loop.
    pub fn reregister(&self) -> (reg: Registration)
        ensures
            reg == (Registration {
                token: self@.token,
                interest: self@.interest,
                opts: PollOpt::edge_oneshot_spec(),
            }),
    {
        Registration { token: self.token, interest: self.interest, opts: PollOpt::edge_oneshot() }
    }
}

} // verus!
