//! One accepted client connection: its interest set, its queue of outbound
//! buffers, its lifecycle flags and its session state. The socket itself is
//! driven by the caller, which performs each read or write and hands the
//! outcome back here.

use std::rc::Rc;
use vstd::prelude::*;

use crate::commands::{decode_command, decoded, ServerCommand, FRAME_LEN};

verus! {

/// Station number meaning that no station has been selected.
pub const NO_CHANNEL: u16 = 65535;

/// The readiness conditions that a connection is subscribed to.
#[derive(Clone, Copy, Debug, PartialEq, Eq, Structural)]
pub struct Interest {
    pub readable: bool,
    pub writable: bool,
    pub hup: bool,
}

/// What one non-blocking read or write attempt on a socket came to.
#[derive(Clone, Copy, Debug, PartialEq, Eq, Structural)]
pub enum IoOutcome {
    /// The call moved this many bytes.
    Done(usize),
    /// The call would have blocked; nothing was moved.
    WouldBlock,
    /// The call failed with an error other than "would block".
    Failed,
}

/// Why a connection can no longer be served.
#[derive(Clone, Copy, Debug, PartialEq, Eq, Structural)]
pub enum ConnError {
    /// A read delivered fewer bytes than a whole frame.
    IncompleteFrame(usize),
    /// The socket reported an error.
    Io,
    /// A write was due but nothing was queued.
    NothingQueued,
}

/// The bytes of a queue of buffers, in queue order.
pub open spec fn flatten(q: Seq<Seq<u8>>) -> Seq<u8>
    decreases q.len(),
{
    if q.len() == 0 {
        Seq::empty()
    } else {
        q[0] + flatten(q.drop_first())
    }
}

/// What a connection is, as the contracts see it.
pub ghost struct ConnectionView {
    pub token: usize,
    pub addr: u32,
    pub interest: Interest,
    /// The outbound buffers, oldest first.
    pub queue: Seq<Seq<u8>>,
    pub idle: bool,
    pub reset: bool,
    pub to_be_removed: bool,
    pub handshake_done: bool,
    pub current_channel: u16,
    pub udp_port: u16,
    /// Every byte handed to the socket so far, in order.
    pub sent: Seq<u8>,
    /// Every byte ever queued, in order.
    pub queued: Seq<u8>,
}

/// The result of one read attempt, given its outcome and the frame buffer it filled.
pub open spec fn read_result(outcome: IoOutcome, frame: Seq<u8>) -> Result<Option<ServerCommand>, ConnError> {
    match outcome {
        IoOutcome::Done(n) => if n < FRAME_LEN {
            Err(ConnError::IncompleteFrame(n))
        } else {
            Ok(Some(decoded(frame)))
        },
        IoOutcome::WouldBlock => Ok(None),
        IoOutcome::Failed => Err(ConnError::Io),
    }
}

impl ConnectionView {
    /// What was sent, followed by what waits, is exactly what was queued.
    pub open spec fn wf(self) -> bool {
        self.sent + flatten(self.queue) == self.queued
    }

    /// A connection just accepted from `addr` into slot `token`.
    pub open spec fn fresh(token: usize, addr: u32) -> ConnectionView {
        ConnectionView {
            token,
            addr,
            interest: Interest { readable: false, writable: false, hup: true },
            queue: Seq::empty(),
            idle: true,
            reset: false,
            to_be_removed: false,
            handshake_done: false,
            current_channel: NO_CHANNEL,
            udp_port: 0,
            sent: Seq::empty(),
            queued: Seq::empty(),
        }
    }

    /// `m` appended to the outbound queue, with interest in writability.
    pub open spec fn enqueue(self, m: Seq<u8>) -> ConnectionView {
        ConnectionView {
            interest: Interest { writable: true, ..self.interest },
            queue: self.queue.push(m),
            queued: self.queued + m,
            ..self
        }
    }

    /// The state after the oldest buffer's write moved `n` bytes: a whole
    /// write drops the buffer, a short one leaves its unsent rest in front.
    /// An emptied queue ends the interest in writability, and a connection
    /// waiting for removal is then reset.
    pub open spec fn after_sent(self, n: nat) -> ConnectionView {
        let front = self.queue[0];
        let queue = if n >= front.len() {
            self.queue.drop_first()
        } else {
            self.queue.update(0, front.skip(n as int))
        };
        let k = if n >= front.len() { front.len() } else { n };
        let drained = queue.len() == 0;
        ConnectionView {
            interest: Interest { writable: self.interest.writable && !drained, ..self.interest },
            queue,
            reset: self.reset || (drained && self.to_be_removed),
            sent: self.sent + front.take(k as int),
            ..self
        }
    }

    /// The result of a write step with the given outcome.
    pub open spec fn write_result(self, outcome: IoOutcome) -> Result<(), ConnError> {
        if self.queue.len() == 0 {
            Err(ConnError::NothingQueued)
        } else {
            match outcome {
                IoOutcome::Failed => Err(ConnError::Io),
                _ => Ok(()),
            }
        }
    }

    /// The state after a write step with the given outcome.
    pub open spec fn after_write(self, outcome: IoOutcome) -> ConnectionView {
        if self.queue.len() == 0 {
            self
        } else {
            match outcome {
                IoOutcome::Done(n) => self.after_sent(n as nat),
                _ => self,
            }
        }
    }
}

/// Appending a buffer to a queue appends its bytes to the queue's bytes.
pub proof fn lemma_flatten_push(q: Seq<Seq<u8>>, m: Seq<u8>)
    ensures
        flatten(q.push(m)) == flatten(q) + m,
    decreases q.len(),
{
    if q.len() == 0 {
        assert(q.push(m).drop_first() == Seq::<Seq<u8>>::empty());
        assert(flatten(q.push(m)) == m + flatten(Seq::<Seq<u8>>::empty()));
    } else {
        assert(q.push(m).drop_first() == q.drop_first().push(m));
        lemma_flatten_push(q.drop_first(), m);
    }
}

/// A write step keeps what was sent, followed by what waits, equal to what was queued.
pub proof fn lemma_write_keeps_wf(c: ConnectionView, outcome: IoOutcome)
    requires
        c.wf(),
    ensures
        c.after_write(outcome).wf(),
        c.after_write(outcome).queued == c.queued,
{
    if c.queue.len() > 0 {
        if let IoOutcome::Done(n) = outcome {
            let front = c.queue[0];
            let d = c.after_sent(n as nat);
            assert(flatten(c.queue) == front + flatten(c.queue.drop_first()));
            if n >= front.len() {
                assert(front.take(front.len() as int) == front);
            } else {
                let q2 = c.queue.update(0, front.skip(n as int));
                assert(q2.drop_first() == c.queue.drop_first());
                assert(flatten(q2) == front.skip(n as int) + flatten(c.queue.drop_first()));
                assert(front.take(n as int) + front.skip(n as int) == front);
            }
            assert(d.sent + flatten(d.queue) == c.queued);
        }
    }
}

/// Bytes leave in the order they were queued: what has been sent is always
/// the start of what was queued.
pub proof fn sent_is_queued_prefix(c: ConnectionView)
    requires
        c.wf(),
    ensures
        c.sent.is_prefix_of(c.queued),
{
    assert(c.queued.subrange(0, c.sent.len() as int) =~= c.sent);
}

/// Replies leave in the order they were queued: when reply `a` was queued
/// right before reply `b`, no byte of `b` is sent before the whole of `a`.
/// (`before` is everything queued ahead of `a`.)
pub proof fn replies_leave_in_order(c: ConnectionView, before: Seq<u8>, a: Seq<u8>, b: Seq<u8>)
    requires
        c.wf(),
        (before + a + b).is_prefix_of(c.queued),
        c.sent.len() > before.len() + a.len(),
    ensures
        c.sent.subrange(before.len() as int, (before.len() + a.len()) as int) == a,
{
    sent_is_queued_prefix(c);
    let lo = before.len() as int;
    let hi = (before.len() + a.len()) as int;
    assert forall|i: int| lo <= i < hi implies c.sent[i] == (before + a + b)[i] by {
        assert(c.sent[i] == c.queued[i]);
        assert(c.queued[i] == (before + a + b)[i]);
    }
    assert(c.sent.subrange(lo, hi) =~= a);
}

/// One accepted client connection.
pub struct Connection {
    token: usize,
    addr: u32,
    interest: Interest,
    send_queue: Vec<Rc<Vec<u8>>>,
    is_idle: bool,
    is_reset: bool,
    is_to_be_removed: bool,
    handshake_done: bool,
    current_channel: u16,
    udp_port: u16,
    sent: Ghost<Seq<u8>>,
    queued: Ghost<Seq<u8>>,
}

impl View for Connection {
    type V = ConnectionView;

    closed spec fn view(&self) -> ConnectionView {
        ConnectionView {
            token: self.token,
            addr: self.addr,
            interest: self.interest,
            queue: self.send_queue@.map_values(|b: Rc<Vec<u8>>| b@),
            idle: self.is_idle,
            reset: self.is_reset,
            to_be_removed: self.is_to_be_removed,
            handshake_done: self.handshake_done,
            current_channel: self.current_channel,
            udp_port: self.udp_port,
            sent: self.sent@,
            queued: self.queued@,
        }
    }
}

/// Relies on `Rc::clone`: a second pointer to the same buffer.
#[verifier::external_body]
pub(crate) fn share(buf: &Rc<Vec<u8>>) -> (r: Rc<Vec<u8>>)
    ensures
        r == *buf,
{
    Rc::clone(buf)
}

/// The bytes of `buf` from position `from` on.
fn tail_of(buf: &Vec<u8>, from: usize) -> (r: Vec<u8>)
    requires
        from <= buf@.len(),
    ensures
        r@ == buf@.skip(from as int),
{
    let mut out: Vec<u8> = Vec::with_capacity(buf.len() - from);
    let mut i: usize = from;
    while i < buf.len()
        invariant
            from <= i <= buf@.len(),
            out@ == buf@.subrange(from as int, i as int),
        decreases buf@.len() - i,
    {
        out.push(buf[i]);
        i = i + 1;
        assert(buf@.subrange(from as int, i as int) == buf@.subrange(from as int, i - 1).push(
            buf@[i - 1],
        ));
    }
    assert(buf@.subrange(from as int, i as int) == buf@.skip(from as int));
    out
}

impl Connection {
    /// A connection accepted from `addr` into slot `token`: subscribed to
    /// hang-ups only, nothing queued, no handshake, no station.
    pub fn new(token: usize, addr: u32) -> (r: Connection)
        ensures
            r@ == ConnectionView::fresh(token, addr),
            r@.wf(),
    {
        let r = Connection {
            token,
            addr,
            interest: Interest { readable: false, writable: false, hup: true },
            send_queue: Vec::new(),
            is_idle: true,
            is_reset: false,
            is_to_be_removed: false,
            handshake_done: false,
            current_channel: NO_CHANNEL,
            udp_port: 0,
            sent: Ghost(Seq::empty()),
            queued: Ghost(Seq::empty()),
        };
        assert(r@.queue == Seq::<Seq<u8>>::empty());
        r
    }

    /// Interprets one read attempt into the three-byte frame buffer. A would-block
    /// means no more data for now; fewer than three bytes is a framing error; a
    /// whole frame is decoded.
    pub fn readable(&self, outcome: IoOutcome, frame: &[u8; 3]) -> (r: Result<Option<ServerCommand>, ConnError>)
        ensures
            r == read_result(outcome, frame@),
    {
        match outcome {
            IoOutcome::Done(n) => {
                if n < FRAME_LEN {
                    Err(ConnError::IncompleteFrame(n))
                } else {
                    Ok(Some(decode_command(frame)))
                }
            },
            IoOutcome::WouldBlock => Ok(None),
            IoOutcome::Failed => Err(ConnError::Io),
        }
    }

    /// The buffer that the next write is to send: the oldest one queued.
    pub fn outbound(&self) -> (r: Option<Rc<Vec<u8>>>)
        ensures
            r.is_some() <==> self@.queue.len() > 0,
            r matches Some(b) ==> b@ == self@.queue[0],
    {
        if self.send_queue.len() == 0 {
            None
        } else {
            Some(share(&self.send_queue[0]))
        }
    }

    /// Applies the outcome of writing `outbound()` to the socket. A whole write
    /// drops the buffer; a short one keeps its unsent rest in front; a
    /// would-block keeps it all. An emptied queue ends the interest in
    /// writability and resets a connection that waits for removal.
    pub fn writable(&mut self, outcome: IoOutcome) -> (r: Result<(), ConnError>)
        requires
            old(self)@.wf(),
        ensures
            r == old(self)@.write_result(outcome),
            final(self)@ == old(self)@.after_write(outcome),
            final(self)@.wf(),
    {
        proof {
            lemma_write_keeps_wf(self@, outcome);
        }
        if self.send_queue.len() == 0 {
            return Err(ConnError::NothingQueued);
        }
        let n = match outcome {
            IoOutcome::Done(n) => n,
            IoOutcome::WouldBlock => {
                return Ok(());
            },
            IoOutcome::Failed => {
                return Err(ConnError::Io);
            },
        };
        let ghost pre = self@;
        let front = self.send_queue.remove(0);
        let flen = front.len();
        if n < flen {
            let rest = tail_of(&*front, n);
            self.send_queue.insert(0, Rc::new(rest));
            self.sent = Ghost(self.sent@ + front@.take(n as int));
        } else {
            self.sent = Ghost(self.sent@ + front@);
            assert(front@.take(front@.len() as int) == front@);
        }
        if self.send_queue.len() == 0 {
            self.interest.writable = false;
            if self.is_to_be_removed {
                self.is_reset = true;
            }
        }
        assert(self@.queue == pre.after_sent(n as nat).queue);
        Ok(())
    }

    /// Queues `message` behind everything already queued, and subscribes to
    /// writability.
    pub fn send_message(&mut self, message: Rc<Vec<u8>>)
        requires
            old(self)@.wf(),
        ensures
            final(self)@ == old(self)@.enqueue(message@),
            final(self)@.wf(),
    {
        proof {
            lemma_flatten_push(self@.queue, message@);
        }
        let ghost pre = self@;
        self.queued = Ghost(self.queued@ + message@);
        self.send_queue.push(message);
        self.interest.writable = true;
        assert(self@.queue == pre.queue.push(message@));
        assert(pre.sent + (flatten(pre.queue) + message@) == (pre.sent + flatten(pre.queue)) + message@);
    }

    /// Subscribes to readability and returns the interest set that the socket
    /// is to be registered with.
    pub fn register(&mut self) -> (r: Interest)
        ensures
            final(self)@ == (ConnectionView {
                interest: Interest { readable: true, ..old(self)@.interest },
                ..old(self)@
            }),
            r == final(self)@.interest,
    {
        self.interest.readable = true;
        self.interest
    }

    /// Records the outcome of registering the socket with its interest set: a
    /// registered connection is no longer idle, one that failed is reset.
    pub fn registered(&mut self, ok: bool)
        ensures
            final(self)@ == (if ok {
                ConnectionView { idle: false, ..old(self)@ }
            } else {
                ConnectionView { reset: true, ..old(self)@ }
            }),
    {
        if ok {
            self.is_idle = false;
        } else {
            self.is_reset = true;
        }
    }

    /// The slot of the connection table that holds this connection.
    pub fn token(&self) -> (r: usize)
        ensures
            r == self@.token,
    {
        self.token
    }

    /// Moves the connection to slot `token`.
    pub(crate) fn set_token(&mut self, token: usize)
        ensures
            final(self)@ == (ConnectionView { token, ..old(self)@ }),
    {
        self.token = token;
    }

    /// The interest set to register the socket with.
    pub fn interest(&self) -> (r: Interest)
        ensures
            r == self@.interest,
    {
        self.interest
    }

    pub fn mark_reset(&mut self)
        ensures
            final(self)@ == (ConnectionView { reset: true, ..old(self)@ }),
    {
        self.is_reset = true;
    }

    pub fn is_reset(&self) -> (r: bool)
        ensures
            r == self@.reset,
    {
        self.is_reset
    }

    pub fn mark_idle(&mut self)
        ensures
            final(self)@ == (ConnectionView { idle: true, ..old(self)@ }),
    {
        self.is_idle = true;
    }

    pub fn is_idle(&self) -> (r: bool)
        ensures
            r == self@.idle,
    {
        self.is_idle
    }

    pub fn mark_to_be_removed(&mut self)
        ensures
            final(self)@ == (ConnectionView { to_be_removed: true, ..old(self)@ }),
    {
        self.is_to_be_removed = true;
    }

    pub fn is_to_be_removed(&self) -> (r: bool)
        ensures
            r == self@.to_be_removed,
    {
        self.is_to_be_removed
    }

    pub fn mark_handshake_done(&mut self)
        ensures
            final(self)@ == (ConnectionView { handshake_done: true, ..old(self)@ }),
    {
        self.handshake_done = true;
    }

    pub fn is_handshake_done(&self) -> (r: bool)
        ensures
            r == self@.handshake_done,
    {
        self.handshake_done
    }

    pub fn set_current_channel(&mut self, channel: u16)
        ensures
            final(self)@ == (ConnectionView { current_channel: channel, ..old(self)@ }),
    {
        self.current_channel = channel;
    }

    pub fn get_current_channel(&self) -> (r: u16)
        ensures
            r == self@.current_channel,
    {
        self.current_channel
    }

    pub fn set_udp_port(&mut self, port: u16)
        ensures
            final(self)@ == (ConnectionView { udp_port: port, ..old(self)@ }),
    {
        self.udp_port = port;
    }

    pub fn get_udp_port(&self) -> (r: u16)
        ensures
            r == self@.udp_port,
    {
        self.udp_port
    }

    /// The peer's IPv4 address, as a big-endian integer.
    pub fn get_addr(&self) -> (r: u32)
        ensures
            r == self@.addr,
    {
        self.addr
    }
}

} // verus!
