//! The reactor's decisions: accepting connections into the table, the
//! protocol state machine run on each decoded command, the order of write
//! and read steps for one readiness notification, and the end-of-cycle sweep.
//! The caller owns the sockets and the readiness multiplexer: it performs each
//! step that a function here asks for and hands back the outcome.

use std::rc::Rc;
use vstd::prelude::*;
use vstd::string::StringSliceAdditionalSpecFns;
use vstd::utf8::encode_utf8;

use crate::commands::{
    be_bytes, be_u16, encode_announce, encode_invalid, encode_welcome, text_frame, welcome_frame,
    ServerCommand, ANNOUNCE, FRAME_LEN, HELLO, INVALID_COMMAND, SET_STATION, WELCOME,
};
use crate::connection::{
    read_result, sent_is_queued_prefix, share, Connection, ConnectionView, Interest, IoOutcome,
    NO_CHANNEL,
};
use crate::table::{
    slot_count, slots, slots_in_range, table_get, table_get_mut, table_insert, table_remove,
    table_with_capacity,
};

verus! {

/// How many connections the table holds at most.
pub const MAX_CONNECTIONS: usize = 128;

/// The listening socket's handle, far outside the table's range.
pub const LISTENER: usize = 10_000_000;

/// The reply to a `SetStation` whose station number is out of range.
pub const INVALID_STATION: &'static str = "server received a SET_STATION command with an invalid station number";

/// The reply to a command with an unknown tag.
pub const UNRECOGNIZED: &'static str = "unrecognized command";

/// The reply to a `SetStation` that comes before the handshake.
pub const EARLY_SET_STATION: &'static str = "server received a SET_STATION command before HELLO";

/// The reply to a second `Hello`.
pub const REPEATED_HELLO: &'static str = "server received more than one HELLO command";

/// The UTF-8 bytes of a station name.
pub open spec fn name_bytes(s: String) -> Seq<u8> {
    encode_utf8(s@)
}

/// The connection after `msg` was queued as an `InvalidCommand` reply and the
/// connection marked for removal.
pub open spec fn rejected(c: ConnectionView, msg: &str) -> ConnectionView {
    ConnectionView { to_be_removed: true, ..c.enqueue(text_frame(INVALID_COMMAND, msg.spec_bytes())) }
}

/// The connection after the protocol handled `cmd`, with `stations` configured.
/// Before the handshake only `Hello` is accepted; after it only `SetStation`
/// with a station number in range. Anything else is answered with an
/// `InvalidCommand` reply and the connection is marked for removal.
pub open spec fn after_command(c: ConnectionView, cmd: ServerCommand, stations: Seq<String>) -> ConnectionView {
    match cmd {
        ServerCommand::Hello { udp_port, .. } => if !c.handshake_done {
            ConnectionView { udp_port, handshake_done: true, ..c }.enqueue(
                welcome_frame(stations.len() as u16),
            )
        } else {
            rejected(c, REPEATED_HELLO)
        },
        ServerCommand::SetStation { station_number, .. } => if !c.handshake_done {
            rejected(c, EARLY_SET_STATION)
        } else if station_number >= stations.len() {
            rejected(c, INVALID_STATION)
        } else {
            ConnectionView { current_channel: station_number, ..c }.enqueue(
                text_frame(ANNOUNCE, name_bytes(stations[station_number as int])),
            )
        },
        ServerCommand::Invalid { .. } => rejected(c, UNRECOGNIZED),
    }
}

/// The station list is one that the wire format can describe: its length
/// fits the `Welcome` count and each name fits an `Announce` frame.
pub open spec fn stations_fit(stations: Seq<String>) -> bool {
    &&& stations.len() <= u16::MAX
    &&& forall|i: int| 0 <= i < stations.len() ==> #[trigger] name_bytes(stations[i]).len() <= 255
}

/// The conditions that the multiplexer reported for one handle.
#[derive(Clone, Copy, Debug, PartialEq, Eq, Structural)]
pub struct Readiness {
    pub readable: bool,
    pub writable: bool,
    pub error: bool,
    pub hup: bool,
}

/// What one non-blocking accept on the listening socket came to.
#[derive(Clone, Copy, Debug, PartialEq, Eq, Structural)]
pub enum AcceptOutcome {
    /// A connection from this IPv4 address (as a big-endian integer) was accepted.
    Accepted(u32),
    WouldBlock,
    Failed,
}

/// What to do with an accepted socket, and whether to accept again.
#[derive(Clone, Copy, Debug, PartialEq, Eq, Structural)]
pub enum AcceptStep {
    /// Register the socket under this handle with this interest set, report
    /// the outcome through `registered`, then accept again.
    Register(usize, Interest),
    /// The table is full: drop the socket, then accept again.
    Discard,
    /// Stop accepting until the next notification.
    Stop,
}

/// The next thing to do for one readiness notification.
#[derive(Debug)]
pub enum Step {
    /// Accept pending connections, through `accept`.
    Accept,
    /// Write this buffer to the connection's socket, then report through `written`.
    Write(Rc<Vec<u8>>),
    /// Read up to one frame from the connection's socket, then report through `read`.
    Read,
    /// Nothing more for this notification.
    Done,
}

/// A `Step` as the contracts see it.
pub ghost enum StepView {
    Accept,
    Write(Seq<u8>),
    Read,
    Done,
}

impl View for Step {
    type V = StepView;

    open spec fn view(&self) -> StepView {
        match self {
            Step::Accept => StepView::Accept,
            Step::Write(b) => StepView::Write(b@),
            Step::Read => StepView::Read,
            Step::Done => StepView::Done,
        }
    }
}

/// A connection just registered: fresh, and subscribed to readability.
pub open spec fn registered_view(token: usize, addr: u32) -> ConnectionView {
    let c = ConnectionView::fresh(token, addr);
    ConnectionView { interest: Interest { readable: true, ..c.interest }, ..c }
}

/// `after` is `before` with a connection from `addr` newly registered in the
/// free slot `t`.
pub open spec fn takes_slot(before: Map<usize, ConnectionView>, after: Map<usize, ConnectionView>, t: usize, addr: u32) -> bool {
    &&& t < MAX_CONNECTIONS
    &&& !before.contains_key(t)
    &&& after == before.insert(t, registered_view(t, addr))
}

/// `after` is `before` without its reset connections.
pub open spec fn swept(before: Map<usize, ConnectionView>, after: Map<usize, ConnectionView>) -> bool {
    &&& forall|k: usize| #[trigger] after.contains_key(k) <==> before.contains_key(k) && !before[k].reset
    &&& forall|k: usize| #[trigger] after.contains_key(k) ==> after[k] == before[k]
}

/// After a step on a connection: read on while reading is asked for and the
/// connection is neither reset nor waiting for removal; else the notification
/// is done and the connection idle, ready to be re-armed.
pub open spec fn settle(c: ConnectionView, read: bool) -> (StepView, ConnectionView) {
    if read && !c.reset && !c.to_be_removed {
        (StepView::Read, c)
    } else {
        (StepView::Done, ConnectionView { idle: true, ..c })
    }
}

/// The first step for a connection that is writable (if `write`) and
/// readable (if `read`): write the oldest queued buffer first; a writable
/// notification with nothing queued resets the connection.
pub open spec fn dispatch(c: ConnectionView, write: bool, read: bool) -> (StepView, ConnectionView) {
    if write && !c.reset {
        if c.queue.len() > 0 {
            (StepView::Write(c.queue[0]), c)
        } else {
            settle(ConnectionView { reset: true, ..c }, read)
        }
    } else {
        settle(c, read)
    }
}

/// The step after a write attempt with the given outcome; a failed write
/// resets the connection.
pub open spec fn after_written(c: ConnectionView, outcome: IoOutcome, read: bool) -> (StepView, ConnectionView) {
    let d = c.after_write(outcome);
    if c.write_result(outcome) is Err {
        settle(ConnectionView { reset: true, ..d }, read)
    } else {
        settle(d, read)
    }
}

/// The step after a read attempt with the given outcome into `frame`. A
/// decoded command runs the protocol and the draining goes on; no data ends
/// it; an error resets the connection. A connection that is reset or waits
/// for removal is not served.
pub open spec fn after_read(c: ConnectionView, outcome: IoOutcome, frame: Seq<u8>, stations: Seq<String>) -> (StepView, ConnectionView) {
    if c.reset || c.to_be_removed {
        settle(c, false)
    } else {
        match read_result(outcome, frame) {
            Ok(Some(cmd)) => settle(after_command(c, cmd, stations), true),
            Ok(None) => settle(c, false),
            Err(_) => settle(ConnectionView { reset: true, ..c }, false),
        }
    }
}

/// Whether a connection takes part in a fan-out.
pub open spec fn receives(c: ConnectionView) -> bool {
    !c.reset && !c.to_be_removed
}

/// The server's state: the listening handle, the table of connections and the
/// station registry.
pub struct Server {
    token: usize,
    conns: slab::Slab<Connection, usize>,
    stations: Vec<String>,
}

impl Server {
    /// The live connections, by handle.
    pub closed spec fn conns(&self) -> Map<usize, ConnectionView> {
        slots(self.conns).map_values(|c: Connection| c@)
    }

    /// The station names; a station's number is its index.
    pub closed spec fn stations(&self) -> Seq<String> {
        self.stations@
    }

    /// The listening socket's handle.
    pub closed spec fn listener(&self) -> usize {
        self.token
    }

    /// The table has its fixed capacity and keeps every connection under its
    /// own handle, each connection's logs agree with its queue, the listening
    /// handle lies outside the table, and the stations fit the wire format.
    pub closed spec fn wf(&self) -> bool {
        &&& slots_in_range(self.conns)
        &&& slot_count(self.conns) == MAX_CONNECTIONS
        &&& self.token == LISTENER
        &&& stations_fit(self.stations@)
        &&& forall|k: usize| #[trigger]
            slots(self.conns).contains_key(k) ==> slots(self.conns)[k]@.wf()
                && slots(self.conns)[k]@.token == k
    }

    /// A server with an empty table, offering `stations`.
    pub fn new(stations: Vec<String>) -> (r: Server)
        requires
            stations_fit(stations@),
        ensures
            r.wf(),
            r.conns() == Map::<usize, ConnectionView>::empty(),
            r.stations() == stations@,
            r.listener() == LISTENER,
    {
        let r = Server { token: LISTENER, conns: table_with_capacity(MAX_CONNECTIONS), stations };
        assert(r.conns() =~= Map::<usize, ConnectionView>::empty());
        r
    }

    /// The connection under handle `token`, if there is one.
    pub fn find_connection_by_token(&self, token: usize) -> (r: Option<&Connection>)
        ensures
            r is Some <==> self.conns().contains_key(token),
            r matches Some(c) ==> c@ == self.conns()[token],
    {
        table_get(&self.conns, token)
    }

    /// Runs the protocol on `cmd`, received on connection `token`: records
    /// the handshake or the station, and queues the reply.
    pub fn handle_command(&mut self, token: usize, cmd: ServerCommand)
        requires
            old(self).wf(),
            old(self).conns().contains_key(token),
        ensures
            final(self).wf(),
            final(self).stations() == old(self).stations(),
            final(self).listener() == old(self).listener(),
            final(self).conns() == old(self).conns().insert(
                token,
                after_command(old(self).conns()[token], cmd, old(self).stations()),
            ),
    {
        proof {
            lemma_reply_texts_fit();
        }
        let ghost pre = self.conns();
        let count = self.stations.len();
        let c = table_get_mut(&mut self.conns, token);
        match cmd {
            ServerCommand::Hello { udp_port, .. } => {
                if !c.is_handshake_done() {
                    c.set_udp_port(udp_port);
                    c.mark_handshake_done();
                    c.send_message(Rc::new(encode_welcome(count as u16)));
                } else {
                    reject(c, REPEATED_HELLO);
                }
            },
            ServerCommand::SetStation { station_number, .. } => {
                if !c.is_handshake_done() {
                    reject(c, EARLY_SET_STATION);
                } else if station_number as usize >= count {
                    reject(c, INVALID_STATION);
                } else {
                    c.set_current_channel(station_number);
                    let name = self.stations[station_number as usize].as_str();
                    assert(name_bytes(self.stations@[station_number as int]).len() <= 255);
                    c.send_message(Rc::new(encode_announce(name)));
                }
            },
            ServerCommand::Invalid { .. } => {
                reject(c, UNRECOGNIZED);
            },
        }
        assert(self.conns() =~= pre.insert(token, after_command(pre[token], cmd, self.stations@)));
    }
}

impl Server {
    /// Takes one accepted socket into the table. With a free slot, the new
    /// connection is fresh (nothing of an earlier occupant of the slot
    /// remains), subscribed to readability, and its handle and interest set
    /// come back for registration; with none, the socket is to be dropped.
    pub fn accept(&mut self, outcome: AcceptOutcome) -> (r: AcceptStep)
        requires
            old(self).wf(),
        ensures
            final(self).wf(),
            final(self).stations() == old(self).stations(),
            final(self).listener() == old(self).listener(),
            outcome is Accepted && old(self).conns().dom().len() < MAX_CONNECTIONS ==> r is Register,
            outcome is Accepted && old(self).conns().dom().len() >= MAX_CONNECTIONS ==> r is Discard,
            !(outcome is Accepted) ==> r is Stop,
            r matches AcceptStep::Register(t, interest) ==> outcome matches AcceptOutcome::Accepted(addr)
                && takes_slot(old(self).conns(), final(self).conns(), t, addr)
                && interest == registered_view(t, addr).interest,
            !(r is Register) ==> final(self).conns() == old(self).conns(),
    {
        let ghost pre = self.conns();
        assert(pre.dom() == slots(self.conns).dom());
        match outcome {
            AcceptOutcome::Accepted(addr) => {
                match table_insert(&mut self.conns, Connection::new(0, addr)) {
                    Ok(t) => {
                        let ghost mid = slots(self.conns);
                        assert(slots(self.conns).contains_key(t));
                        assert(t < MAX_CONNECTIONS);
                        let c = table_get_mut(&mut self.conns, t);
                        c.set_token(t);
                        let interest = c.register();
                        assert(slots(self.conns).dom() =~= mid.dom());
                        assert(slots(self.conns)[t]@ == registered_view(t, addr));
                        assert(self.conns() =~= pre.insert(t, registered_view(t, addr)));
                        AcceptStep::Register(t, interest)
                    },
                    Err(_) => {
                        assert(self.conns() =~= pre);
                        AcceptStep::Discard
                    },
                }
            },
            _ => AcceptStep::Stop,
        }
    }

    /// Records the outcome of registering connection `token`'s socket after
    /// `accept`: a registered connection stops being idle; one that could not
    /// be registered leaves the table.
    pub fn registered(&mut self, token: usize, ok: bool)
        requires
            old(self).wf(),
        ensures
            final(self).wf(),
            final(self).stations() == old(self).stations(),
            final(self).listener() == old(self).listener(),
            final(self).conns() == if !old(self).conns().contains_key(token) {
                old(self).conns()
            } else if ok {
                old(self).conns().insert(token, ConnectionView { idle: false, ..old(self).conns()[token] })
            } else {
                old(self).conns().remove(token)
            },
    {
        let ghost pre = self.conns();
        if table_get(&self.conns, token).is_none() {
            return;
        }
        if ok {
            let c = table_get_mut(&mut self.conns, token);
            c.registered(true);
            assert(self.conns() =~= pre.insert(token, ConnectionView { idle: false, ..pre[token] }));
        } else {
            let _ = table_remove(&mut self.conns, token);
            assert(self.conns() =~= pre.remove(token));
        }
    }

    /// The first step for a readiness notification on `token`. An error or a
    /// hang-up resets the connection and ends the notification. Readability
    /// of the listening handle asks for accepting. On a connection, see
    /// `dispatch`. A handle with no connection is ignored.
    pub fn ready(&mut self, token: usize, ev: Readiness) -> (r: Step)
        requires
            old(self).wf(),
        ensures
            final(self).wf(),
            final(self).stations() == old(self).stations(),
            final(self).listener() == old(self).listener(),
            ev.error || ev.hup ==> r@ == StepView::Done && final(self).conns() == if old(self).conns().contains_key(token) {
                old(self).conns().insert(token, ConnectionView { reset: true, ..old(self).conns()[token] })
            } else {
                old(self).conns()
            },
            !(ev.error || ev.hup) && token == old(self).listener() ==> final(self).conns() == old(self).conns()
                && r@ == if ev.readable { StepView::Accept } else { StepView::Done },
            !(ev.error || ev.hup) && token != old(self).listener() && !old(self).conns().contains_key(token)
                ==> final(self).conns() == old(self).conns() && r@ == StepView::Done,
            !(ev.error || ev.hup) && old(self).conns().contains_key(token) ==> (r@, final(self).conns()[token])
                == dispatch(old(self).conns()[token], ev.writable, ev.readable)
                && final(self).conns() == old(self).conns().insert(token, final(self).conns()[token]),
    {
        let ghost pre = self.conns();
        if ev.error || ev.hup {
            if table_get(&self.conns, token).is_some() {
                let c = table_get_mut(&mut self.conns, token);
                c.mark_reset();
                assert(self.conns() =~= pre.insert(token, ConnectionView { reset: true, ..pre[token] }));
            }
            return Step::Done;
        }
        if token == self.token {
            return if ev.readable { Step::Accept } else { Step::Done };
        }
        if table_get(&self.conns, token).is_none() {
            return Step::Done;
        }
        self.dispatch_step(token, ev.writable, ev.readable)
    }

    /// Carries out `dispatch` on connection `token`.
    fn dispatch_step(&mut self, token: usize, write: bool, read: bool) -> (r: Step)
        requires
            old(self).wf(),
            old(self).conns().contains_key(token),
        ensures
            final(self).wf(),
            final(self).stations() == old(self).stations(),
            final(self).listener() == old(self).listener(),
            (r@, final(self).conns()[token]) == dispatch(old(self).conns()[token], write, read),
            final(self).conns() == old(self).conns().insert(token, final(self).conns()[token]),
    {
        let ghost pre = self.conns();
        let c = table_get_mut(&mut self.conns, token);
        let mut r = Step::Done;
        let mut settled = false;
        if write && !c.is_reset() {
            match c.outbound() {
                Some(b) => {
                    r = Step::Write(b);
                    settled = true;
                },
                None => c.mark_reset(),
            }
        }
        if !settled {
            if read && !c.is_reset() && !c.is_to_be_removed() {
                r = Step::Read;
            } else {
                c.mark_idle();
            }
        }
        assert(self.conns() =~= pre.insert(token, self.conns()[token]));
        r
    }

    /// Carries out `settle` on connection `token`.
    fn settle_step(&mut self, token: usize, read: bool) -> (r: Step)
        requires
            old(self).wf(),
            old(self).conns().contains_key(token),
        ensures
            final(self).wf(),
            final(self).stations() == old(self).stations(),
            final(self).listener() == old(self).listener(),
            (r@, final(self).conns()[token]) == settle(old(self).conns()[token], read),
            final(self).conns() == old(self).conns().insert(token, final(self).conns()[token]),
    {
        let ghost pre = self.conns();
        let c = table_get_mut(&mut self.conns, token);
        let r = if read && !c.is_reset() && !c.is_to_be_removed() {
            Step::Read
        } else {
            c.mark_idle();
            Step::Done
        };
        assert(self.conns() =~= pre.insert(token, self.conns()[token]));
        r
    }

    /// Applies the outcome of a `Step::Write` on connection `token` and gives
    /// the next step; `read` tells whether the notification also reported
    /// readability.
    pub fn written(&mut self, token: usize, outcome: IoOutcome, read: bool) -> (r: Step)
        requires
            old(self).wf(),
        ensures
            final(self).wf(),
            final(self).stations() == old(self).stations(),
            final(self).listener() == old(self).listener(),
            !old(self).conns().contains_key(token) ==> final(self).conns() == old(self).conns() && r@ == StepView::Done,
            old(self).conns().contains_key(token) ==> (r@, final(self).conns()[token])
                == after_written(old(self).conns()[token], outcome, read)
                && final(self).conns() == old(self).conns().insert(token, final(self).conns()[token]),
    {
        let ghost pre = self.conns();
        if table_get(&self.conns, token).is_none() {
            return Step::Done;
        }
        let c = table_get_mut(&mut self.conns, token);
        if c.writable(outcome).is_err() {
            c.mark_reset();
        }
        assert(self.conns() =~= pre.insert(token, self.conns()[token]));
        self.settle_step(token, read)
    }

    /// Applies the outcome of a `Step::Read` on connection `token`, whose read
    /// filled `frame`, runs the protocol on a decoded command, and gives the
    /// next step.
    pub fn read(&mut self, token: usize, outcome: IoOutcome, frame: &[u8; 3]) -> (r: Step)
        requires
            old(self).wf(),
        ensures
            final(self).wf(),
            final(self).stations() == old(self).stations(),
            final(self).listener() == old(self).listener(),
            !old(self).conns().contains_key(token) ==> final(self).conns() == old(self).conns() && r@ == StepView::Done,
            old(self).conns().contains_key(token) ==> (r@, final(self).conns()[token])
                == after_read(old(self).conns()[token], outcome, frame@, old(self).stations())
                && final(self).conns() == old(self).conns().insert(token, final(self).conns()[token]),
    {
        let ghost pre = self.conns();
        let c = match table_get(&self.conns, token) {
            Some(c) => c,
            None => {
                return Step::Done;
            },
        };
        if c.is_reset() || c.is_to_be_removed() {
            return self.settle_step(token, false);
        }
        match c.readable(outcome, frame) {
            Ok(Some(cmd)) => {
                self.handle_command(token, cmd);
                self.settle_step(token, true)
            },
            Ok(None) => self.settle_step(token, false),
            Err(_) => {
                let c = table_get_mut(&mut self.conns, token);
                c.mark_reset();
                assert(self.conns() =~= pre.insert(token, ConnectionView { reset: true, ..pre[token] }));
                self.settle_step(token, false)
            },
        }
    }
}

/// Whether a connection is to be re-armed at the end of the cycle: live and idle.
pub open spec fn rearm_due(c: ConnectionView) -> bool {
    !c.reset && c.idle
}

impl Server {
    /// The connections to re-arm at the end of a poll cycle, in handle order,
    /// each with the interest set to re-register its socket with. The outcome
    /// of each re-registration goes to `rearmed`.
    pub fn to_rearm(&self) -> (r: Vec<(usize, Interest)>)
        requires
            self.wf(),
        ensures
            forall|j: int| 0 <= j < r@.len() ==> {
                &&& self.conns().contains_key(#[trigger] r@[j].0)
                &&& rearm_due(self.conns()[r@[j].0])
                &&& r@[j].1 == self.conns()[r@[j].0].interest
            },
            forall|j1: int, j2: int| 0 <= j1 < j2 < r@.len() ==> r@[j1].0 < r@[j2].0,
            forall|k: usize| self.conns().contains_key(k) && rearm_due(#[trigger] self.conns()[k]) ==> exists|j: int|
                0 <= j < r@.len() && r@[j].0 == k,
    {
        let mut out: Vec<(usize, Interest)> = Vec::new();
        let mut i: usize = 0;
        while i < MAX_CONNECTIONS
            invariant
                self.wf(),
                i <= MAX_CONNECTIONS,
                forall|j: int| 0 <= j < out@.len() ==> {
                    &&& #[trigger] out@[j].0 < i
                    &&& self.conns().contains_key(out@[j].0)
                    &&& rearm_due(self.conns()[out@[j].0])
                    &&& out@[j].1 == self.conns()[out@[j].0].interest
                },
                forall|j1: int, j2: int| 0 <= j1 < j2 < out@.len() ==> out@[j1].0 < out@[j2].0,
                forall|k: usize| k < i && self.conns().contains_key(k) && rearm_due(#[trigger] self.conns()[k]) ==> exists|j: int|
                    0 <= j < out@.len() && out@[j].0 == k,
            decreases MAX_CONNECTIONS - i,
        {
            let ghost prev = out@;
            if let Some(c) = table_get(&self.conns, i) {
                if !c.is_reset() && c.is_idle() {
                    out.push((i, c.interest()));
                    assert(out@[out@.len() - 1].0 == i);
                }
            }
            proof {
                assert forall|k: usize| k <= i && self.conns().contains_key(k) && rearm_due(#[trigger] self.conns()[k]) implies exists|j: int|
                    0 <= j < out@.len() && out@[j].0 == k by {
                    if k == i {
                        assert(slots(self.conns).contains_key(i));
                        assert(out@[out@.len() - 1].0 == i);
                    } else {
                        let j = choose|j: int| 0 <= j < prev.len() && prev[j].0 == k;
                        assert(out@[j] == prev[j]);
                    }
                }
            }
            i = i + 1;
        }
        proof {
            assert forall|k: usize| self.conns().contains_key(k) && rearm_due(#[trigger] self.conns()[k]) implies exists|j: int|
                0 <= j < out@.len() && out@[j].0 == k by {
                assert(slots(self.conns).contains_key(k));
            }
        }
        out
    }

    /// Records the outcome of re-registering connection `token`'s socket: a
    /// re-armed connection stops being idle; one that could not be re-armed
    /// is reset, and leaves with the next `tick`.
    pub fn rearmed(&mut self, token: usize, ok: bool)
        requires
            old(self).wf(),
        ensures
            final(self).wf(),
            final(self).stations() == old(self).stations(),
            final(self).listener() == old(self).listener(),
            final(self).conns() == if !old(self).conns().contains_key(token) {
                old(self).conns()
            } else if ok {
                old(self).conns().insert(token, ConnectionView { idle: false, ..old(self).conns()[token] })
            } else {
                old(self).conns().insert(token, ConnectionView { reset: true, ..old(self).conns()[token] })
            },
    {
        let ghost pre = self.conns();
        if table_get(&self.conns, token).is_none() {
            return;
        }
        let c = table_get_mut(&mut self.conns, token);
        c.registered(ok);
        assert(self.conns() =~= pre.insert(token, self.conns()[token]));
    }

    /// Ends a poll cycle: every reset connection leaves the table, and the
    /// handles that were freed come back in increasing order, for the caller
    /// to close their sockets. The other connections stay as they were.
    pub fn tick(&mut self) -> (r: Vec<usize>)
        requires
            old(self).wf(),
        ensures
            final(self).wf(),
            final(self).stations() == old(self).stations(),
            final(self).listener() == old(self).listener(),
            swept(old(self).conns(), final(self).conns()),
            forall|j: int| 0 <= j < r@.len() ==> old(self).conns().contains_key(#[trigger] r@[j])
                && old(self).conns()[r@[j]].reset,
            forall|j1: int, j2: int| 0 <= j1 < j2 < r@.len() ==> r@[j1] < r@[j2],
            forall|k: usize| old(self).conns().contains_key(k) && (#[trigger] old(self).conns()[k]).reset ==> exists|j: int|
                0 <= j < r@.len() && r@[j] == k,
    {
        let ghost pre = self.conns();
        let mut removed: Vec<usize> = Vec::new();
        let mut i: usize = 0;
        while i < MAX_CONNECTIONS
            invariant
                self.wf(),
                self.stations() == old(self).stations(),
                self.listener() == old(self).listener(),
                pre == old(self).conns(),
                i <= MAX_CONNECTIONS,
                forall|k: usize| #[trigger] self.conns().contains_key(k) <==> pre.contains_key(k) && (k >= i || !pre[k].reset),
                forall|k: usize| #[trigger] self.conns().contains_key(k) ==> self.conns()[k] == pre[k],
                forall|j: int| 0 <= j < removed@.len() ==> #[trigger] removed@[j] < i && pre.contains_key(removed@[j])
                    && pre[removed@[j]].reset,
                forall|j1: int, j2: int| 0 <= j1 < j2 < removed@.len() ==> removed@[j1] < removed@[j2],
                forall|k: usize| k < i && pre.contains_key(k) && (#[trigger] pre[k]).reset ==> exists|j: int|
                    0 <= j < removed@.len() && removed@[j] == k,
            decreases MAX_CONNECTIONS - i,
        {
            let ghost prev = removed@;
            let ghost before = self.conns();
            let due = match table_get(&self.conns, i) {
                Some(c) => c.is_reset(),
                None => false,
            };
            assert(due <==> before.contains_key(i) && before[i].reset);
            if due {
                let _ = table_remove(&mut self.conns, i);
                assert(self.conns() =~= before.remove(i));
                removed.push(i);
                assert(removed@[removed@.len() - 1] == i);
            }
            proof {
                assert forall|k: usize| #[trigger] self.conns().contains_key(k) <==> pre.contains_key(k) && (k >= i + 1
                    || !pre[k].reset) by {
                    if k == i {
                        assert(before.contains_key(i) ==> before[i] == pre[i]);
                    }
                }
                assert forall|k: usize| k <= i && pre.contains_key(k) && (#[trigger] pre[k]).reset implies exists|j: int|
                    0 <= j < removed@.len() && removed@[j] == k by {
                    if k == i {
                        assert(before.contains_key(i));
                        assert(removed@[removed@.len() - 1] == i);
                    } else {
                        let j = choose|j: int| 0 <= j < prev.len() && prev[j] == k;
                        assert(removed@[j] == prev[j]);
                    }
                }
            }
            i = i + 1;
        }
        proof {
            assert forall|k: usize| pre.contains_key(k) && (#[trigger] pre[k]).reset implies exists|j: int|
                0 <= j < removed@.len() && removed@[j] == k by {
                assert(slots(old(self).conns).contains_key(k));
            }
            assert forall|k: usize| #[trigger] self.conns().contains_key(k) <==> pre.contains_key(k) && !pre[k].reset by {
                if pre.contains_key(k) {
                    assert(slots(old(self).conns).contains_key(k));
                }
            }
        }
        removed
    }

    /// Queues the one shared buffer `message` on every connection that is
    /// neither reset nor waiting for removal; the others stay as they were.
    pub fn broadcast(&mut self, message: Rc<Vec<u8>>)
        requires
            old(self).wf(),
        ensures
            final(self).wf(),
            final(self).stations() == old(self).stations(),
            final(self).listener() == old(self).listener(),
            final(self).conns().dom() == old(self).conns().dom(),
            forall|k: usize| #[trigger] old(self).conns().contains_key(k) ==> final(self).conns()[k] == if receives(old(self).conns()[k]) {
                old(self).conns()[k].enqueue(message@)
            } else {
                old(self).conns()[k]
            },
    {
        let ghost pre = self.conns();
        let mut i: usize = 0;
        while i < MAX_CONNECTIONS
            invariant
                self.wf(),
                self.stations() == old(self).stations(),
                self.listener() == old(self).listener(),
                pre == old(self).conns(),
                i <= MAX_CONNECTIONS,
                self.conns().dom() == pre.dom(),
                forall|k: usize| #[trigger] pre.contains_key(k) ==> self.conns()[k] == if k < i && receives(pre[k]) {
                    pre[k].enqueue(message@)
                } else {
                    pre[k]
                },
            decreases MAX_CONNECTIONS - i,
        {
            let due = match table_get(&self.conns, i) {
                Some(c) => !c.is_reset() && !c.is_to_be_removed(),
                None => false,
            };
            if due {
                let ghost before = self.conns();
                assert(slots(self.conns).contains_key(i));
                assert(pre.contains_key(i));
                assert(before[i] == pre[i]);
                let c = table_get_mut(&mut self.conns, i);
                c.send_message(share(&message));
                assert(self.conns() =~= before.insert(i, pre[i].enqueue(message@)));
            }
            i = i + 1;
        }
        proof {
            assert forall|k: usize| #[trigger] pre.contains_key(k) implies k < MAX_CONNECTIONS by {
                assert(slots(old(self).conns).contains_key(k));
            }
        }
    }
}

/// The two bytes that carry a number give that number back.
proof fn lemma_be_round_trip(n: u16)
    ensures
        be_u16(be_bytes(n)[0], be_bytes(n)[1]) == n,
{
}

/// Every `Hello` frame read on a connection that has not shaken hands yet
/// completes the handshake, records the client's datagram port, and queues
/// exactly one reply: a `Welcome` whose count is the number of configured
/// stations.
pub proof fn hello_is_welcomed(c: ConnectionView, frame: Seq<u8>, stations: Seq<String>)
    requires
        stations_fit(stations),
        frame.len() == FRAME_LEN,
        frame[0] == HELLO,
        !c.handshake_done,
        !c.reset,
        !c.to_be_removed,
    ensures
        ({
            let (next, d) = after_read(c, IoOutcome::Done(FRAME_LEN), frame, stations);
            let reply = d.queue.last();
            &&& next == StepView::Read
            &&& d.handshake_done
            &&& d.udp_port == be_u16(frame[1], frame[2])
            &&& d.queue == c.queue.push(reply)
            &&& reply.len() == 3
            &&& reply[0] == WELCOME
            &&& be_u16(reply[1], reply[2]) == stations.len()
        }),
{
    let n = stations.len() as u16;
    lemma_be_round_trip(n);
    let d = after_read(c, IoOutcome::Done(FRAME_LEN), frame, stations).1;
    assert(d.queue.last() == welcome_frame(n));
}

/// Every `SetStation` frame whose number is below the station count, read on
/// a connection that has shaken hands, selects that station and queues
/// exactly one reply: an `Announce` whose name is the station's name, byte
/// for byte.
pub proof fn valid_station_is_announced(c: ConnectionView, frame: Seq<u8>, stations: Seq<String>)
    requires
        stations_fit(stations),
        frame.len() == FRAME_LEN,
        frame[0] == SET_STATION,
        be_u16(frame[1], frame[2]) < stations.len(),
        c.handshake_done,
        !c.reset,
        !c.to_be_removed,
    ensures
        ({
            let station = be_u16(frame[1], frame[2]);
            let name = name_bytes(stations[station as int]);
            let (next, d) = after_read(c, IoOutcome::Done(FRAME_LEN), frame, stations);
            let reply = d.queue.last();
            &&& next == StepView::Read
            &&& d.current_channel == station
            &&& d.queue == c.queue.push(reply)
            &&& reply[0] == ANNOUNCE
            &&& reply[1] == name.len()
            &&& reply.skip(2) == name
        }),
{
    let station = be_u16(frame[1], frame[2]);
    let name = name_bytes(stations[station as int]);
    assert(name.len() <= 255);
    let d = after_read(c, IoOutcome::Done(FRAME_LEN), frame, stations).1;
    assert(d.queue.last() == text_frame(ANNOUNCE, name));
    assert(text_frame(ANNOUNCE, name).skip(2) =~= name);
}

/// Every `SetStation` frame whose number is not below the station count,
/// read on a connection that has shaken hands, queues exactly one reply, an
/// `InvalidCommand`, and ends the reading. From then on no read on the
/// connection is served, and once the reply has been written the connection
/// is reset, to be closed by the next `tick`.
pub proof fn invalid_station_is_refused(
    c: ConnectionView,
    frame: Seq<u8>,
    stations: Seq<String>,
    outcome: IoOutcome,
    next_frame: Seq<u8>,
    read: bool,
)
    requires
        frame.len() == FRAME_LEN,
        frame[0] == SET_STATION,
        be_u16(frame[1], frame[2]) >= stations.len(),
        c.handshake_done,
        !c.reset,
        !c.to_be_removed,
    ensures
        ({
            let (next, d) = after_read(c, IoOutcome::Done(FRAME_LEN), frame, stations);
            let reply = text_frame(INVALID_COMMAND, INVALID_STATION.spec_bytes());
            &&& next == StepView::Done
            &&& d.to_be_removed
            &&& d.queue == c.queue.push(reply)
            &&& after_read(d, outcome, next_frame, stations) == (StepView::Done, ConnectionView { idle: true, ..d })
            &&& c.queue.len() == 0 ==> after_written(d, IoOutcome::Done(reply.len() as usize), read).1.reset
        }),
{
    lemma_reply_texts_fit();
    let reply = text_frame(INVALID_COMMAND, INVALID_STATION.spec_bytes());
    let d = after_read(c, IoOutcome::Done(FRAME_LEN), frame, stations).1;
    if c.queue.len() == 0 {
        assert(d.queue.len() == 1);
        assert(d.queue[0] == reply);
        assert(d.queue.drop_first().len() == 0);
    }
}

/// A handle freed by `tick` may be taken again by a later `accept`, and
/// nothing of the connection that held it carries over to the new one: no
/// handshake, station, port, flag or queued reply.
pub proof fn freed_handle_starts_fresh(
    m0: Map<usize, ConnectionView>,
    m1: Map<usize, ConnectionView>,
    m2: Map<usize, ConnectionView>,
    t: usize,
    addr: u32,
)
    requires
        swept(m0, m1),
        takes_slot(m1, m2, t, addr),
        m0.contains_key(t),
    ensures
        m0[t].reset,
        m2[t].token == t,
        m2[t].addr == addr,
        !m2[t].handshake_done,
        m2[t].current_channel == NO_CHANNEL,
        m2[t].udp_port == 0,
        !m2[t].reset,
        !m2[t].to_be_removed,
        m2[t].queue.len() == 0,
        m2[t].sent.len() == 0,
{
    assert(!m1.contains_key(t));
}

/// A buffer fanned out by `broadcast` reaches every recipient whole and
/// unchanged. `broadcast` turns each recipient `c` into `c.enqueue(m)`, the
/// same bytes on each; `later` is any state of that connection whose log of
/// queued bytes extends that one. Once as many bytes have been sent as were
/// queued up to the end of `m`, the bytes sent at `m`'s place are `m`.
pub proof fn fan_out_arrives_whole(c: ConnectionView, m: Seq<u8>, later: ConnectionView)
    requires
        later.wf(),
        c.enqueue(m).queued.is_prefix_of(later.queued),
        later.sent.len() >= c.queued.len() + m.len(),
    ensures
        later.sent.subrange(c.queued.len() as int, (c.queued.len() + m.len()) as int) == m,
{
    sent_is_queued_prefix(later);
    let lo = c.queued.len() as int;
    let hi = (c.queued.len() + m.len()) as int;
    assert forall|i: int| lo <= i < hi implies later.sent[i] == m[i - lo] by {
        assert(later.sent[i] == later.queued[i]);
        assert(later.queued[i] == c.enqueue(m).queued[i]);
    }
    assert(later.sent.subrange(lo, hi) =~= m);
}

/// Every fixed reply text fits an `InvalidCommand` frame.
proof fn lemma_reply_texts_fit()
    ensures
        INVALID_STATION.spec_bytes().len() <= 255,
        UNRECOGNIZED.spec_bytes().len() <= 255,
        EARLY_SET_STATION.spec_bytes().len() <= 255,
        REPEATED_HELLO.spec_bytes().len() <= 255,
{
    reveal_strlit("server received a SET_STATION command with an invalid station number");
    reveal_strlit("unrecognized command");
    reveal_strlit("server received a SET_STATION command before HELLO");
    reveal_strlit("server received more than one HELLO command");
    assert(vstd::utf8::is_ascii_chars(UNRECOGNIZED@));
    vstd::utf8::is_ascii_chars_encode_utf8(UNRECOGNIZED@);
    assert(vstd::utf8::is_ascii_chars(INVALID_STATION@));
    vstd::utf8::is_ascii_chars_encode_utf8(INVALID_STATION@);
    assert(vstd::utf8::is_ascii_chars(EARLY_SET_STATION@));
    vstd::utf8::is_ascii_chars_encode_utf8(EARLY_SET_STATION@);
    assert(vstd::utf8::is_ascii_chars(REPEATED_HELLO@));
    vstd::utf8::is_ascii_chars_encode_utf8(REPEATED_HELLO@);
}

/// Queues `msg` as an `InvalidCommand` reply and marks the connection for removal.
fn reject(c: &mut Connection, msg: &str)
    requires
        old(c)@.wf(),
        msg.spec_bytes().len() <= 255,
    ensures
        final(c)@ == rejected(old(c)@, msg),
        final(c)@.wf(),
{
    c.send_message(Rc::new(encode_invalid(msg)));
    c.mark_to_be_removed();
}

} // verus!
