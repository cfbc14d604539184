//! The multiplexer core: port allocation, the virtual-connection table,
//! and the per-packet demultiplexing decisions.
//!
//! The core is a state machine. The surrounding process owns the L2CAP
//! stream halves and the queues, and drives the core: it calls
//! [`Mux::add_tcp_stream`] for each accepted local connection, feeds every
//! packet decoded from the transport to [`Mux::handle_packet`], performs
//! the returned [`DemuxAction`] (write to a local TCP half, drop it, or
//! nothing), and calls [`Mux::stop`] when the transport is lost. Every
//! decision the tasks of the forwarder make is taken here, where it is
//! verified; the I/O it directs stays outside.

use vstd::prelude::*;

verus! {

use crate::codec::Packet;
use crate::codec::PacketModel;
use crate::table::empty_table;
use crate::table::table_clear;
use crate::table::table_contains;
use crate::table::table_contents;
use crate::table::table_get;
use crate::table::table_insert;
use crate::table::table_new;
use crate::table::table_remove;

/// Receive maximum-transmission-unit requested for the L2CAP stream; also
/// the cap on a single transport read.
pub const RECV_MTU: u16 = 65535;

/// Cap on a single read from a local TCP stream, and so on the payload of
/// one outgoing data packet.
pub const TCP_READ_CAP: usize = 1024;

/// A keepalive is enqueued at least this often while the mux runs.
pub const KEEPALIVE_INTERVAL_MS: u64 = 1000;

/// How long the reassembly buffer may wait for the next transport chunk
/// before the transport counts as lost. Ten missed keepalive periods.
pub const TRANSPORT_TIMEOUT_MS: u64 = 10000;

/// Why `add_tcp_stream` can fail: the freshly allocated port wrapped
/// around into one still live, so the table is effectively full.
#[derive(Debug, Clone, Copy, PartialEq, Eq, Structural)]
pub enum MuxError {
    TooManyOpenConnections,
}

/// Mathematical model of the multiplexer state: the next port to hand
/// out, the next connection token, which port is bound to which token,
/// and whether the mux has been stopped.
pub struct MuxView {
    pub next_port: u16,
    pub next_conn: u64,
    pub table: Map<u16, u64>,
    pub stopped: bool,
}

/// The state a fresh multiplexer starts in: ports are handed out from 1
/// (0 marks control frames on the wire), no connection is live.
pub open spec fn spec_init() -> MuxView {
    MuxView { next_port: 1, next_conn: 0, table: Map::empty(), stopped: false }
}

/// Ports advance monotonically and wrap from 65535 back to 1, never
/// through 0.
pub open spec fn spec_next_port(p: u16) -> u16 {
    if p == 65535 {
        1
    } else {
        (p + 1) as u16
    }
}

/// One port allocation: the counter always advances; the new connection
/// is recorded only if the allocated port is not still live.
pub open spec fn spec_add(s: MuxView) -> (MuxView, Option<(u16, u64)>) {
    let port = s.next_port;
    if s.table.dom().contains(port) {
        (MuxView { next_port: spec_next_port(port), ..s }, None)
    } else {
        (
            MuxView {
                next_port: spec_next_port(port),
                next_conn: (s.next_conn + 1) as u64,
                table: s.table.insert(port, s.next_conn),
                ..s
            },
            Some((port, s.next_conn)),
        )
    }
}

/// What the demultiplexer decides for one inbound packet. `conn` is the
/// token under which the process holds the TCP write half.
pub enum DemuxEffect {
    /// Deliver `data` to the local connection `conn`.
    WriteTcp { conn: u64, data: Seq<u8> },
    /// The peer closed `port`: the entry is removed and the process drops
    /// the write half `conn`, closing the local connection.
    CloseTcp { port: u16, conn: u64 },
    /// An empty data payload is never forwarded.
    DropEmptyData,
    /// Data for a port with no live connection is dropped.
    DropUnknownPort,
    /// Keepalives carry no payload and are ignored.
    IgnoreKeepalive,
    /// A close for a port with no live connection is dropped.
    DropUnknownClose,
    /// This side does not accept passive opens.
    RejectPassiveOpen,
    /// A control packet with an unknown message type or status is dropped.
    DropUnknownControl,
}

/// The demultiplexing decision for one packet: which state the mux moves
/// to and what the process must do with the packet.
pub open spec fn spec_handle(s: MuxView, p: PacketModel) -> (MuxView, DemuxEffect) {
    match p {
        PacketModel::Data { port, data } => {
            if data.len() == 0 {
                (s, DemuxEffect::DropEmptyData)
            } else if s.table.dom().contains(port) {
                (s, DemuxEffect::WriteTcp { conn: s.table[port], data })
            } else {
                (s, DemuxEffect::DropUnknownPort)
            }
        },
        PacketModel::Control { msg_type, for_port, status } => {
            if msg_type == 0 {
                (s, DemuxEffect::IgnoreKeepalive)
            } else if msg_type != 1 {
                (s, DemuxEffect::DropUnknownControl)
            } else if status == 0 {
                if s.table.dom().contains(for_port) {
                    (
                        MuxView { table: s.table.remove(for_port), ..s },
                        DemuxEffect::CloseTcp { port: for_port, conn: s.table[for_port] },
                    )
                } else {
                    (s, DemuxEffect::DropUnknownClose)
                }
            } else if status == 1 {
                (s, DemuxEffect::RejectPassiveOpen)
            } else {
                (s, DemuxEffect::DropUnknownControl)
            }
        },
    }
}

/// Stopping tears every virtual connection down and marks the mux
/// stopped; stopping again changes nothing.
pub open spec fn spec_stop(s: MuxView) -> MuxView {
    MuxView { table: Map::empty(), stopped: true, ..s }
}

/// The executable counterpart of [`DemuxEffect`], handed to the process.
#[derive(Debug, PartialEq, Eq)]
pub enum DemuxAction {
    WriteTcp { conn: u64, data: Vec<u8> },
    CloseTcp { port: u16, conn: u64 },
    DropEmptyData,
    DropUnknownPort,
    IgnoreKeepalive,
    DropUnknownClose,
    RejectPassiveOpen,
    DropUnknownControl,
}

impl View for DemuxAction {
    type V = DemuxEffect;

    open spec fn view(&self) -> DemuxEffect {
        match self {
            DemuxAction::WriteTcp { conn, data } => DemuxEffect::WriteTcp {
                conn: *conn,
                data: data@,
            },
            DemuxAction::CloseTcp { port, conn } => DemuxEffect::CloseTcp {
                port: *port,
                conn: *conn,
            },
            DemuxAction::DropEmptyData => DemuxEffect::DropEmptyData,
            DemuxAction::DropUnknownPort => DemuxEffect::DropUnknownPort,
            DemuxAction::IgnoreKeepalive => DemuxEffect::IgnoreKeepalive,
            DemuxAction::DropUnknownClose => DemuxEffect::DropUnknownClose,
            DemuxAction::RejectPassiveOpen => DemuxEffect::RejectPassiveOpen,
            DemuxAction::DropUnknownControl => DemuxEffect::DropUnknownControl,
        }
    }
}

/// The multiplexer core state.
pub struct Mux {
    next_port: u16,
    next_conn: u64,
    table: dashmap::DashMap<u16, u64>,
    stopped: bool,
}

impl View for Mux {
    type V = MuxView;

    closed spec fn view(&self) -> MuxView {
        MuxView {
            next_port: self.next_port,
            next_conn: self.next_conn,
            table: table_contents(self.table),
            stopped: self.stopped,
        }
    }
}

impl Mux {
    /// A fresh multiplexer core, ready to serve connections.
    pub fn new() -> (m: Mux)
        ensures
            m@ == spec_init(),
    {
        let m = Mux { next_port: 1, next_conn: 0, table: table_new(), stopped: false };
        proof {
            assert(m@.table =~= spec_init().table);
        }
        m
    }

    /// Whether `stop` has been called.
    pub fn is_stopped(&self) -> (r: bool)
        ensures
            r == self@.stopped,
    {
        self.stopped
    }

    /// Whether another connection may be added: the mux still runs and
    /// connection tokens have not been exhausted.
    pub fn can_add(&self) -> (r: bool)
        ensures
            r == (!self@.stopped && self@.next_conn < u64::MAX),
    {
        !self.stopped && self.next_conn < u64::MAX
    }

    /// Whether `port` currently has a live virtual connection.
    pub fn is_open(&self, port: u16) -> (r: bool)
        ensures
            r == self@.table.dom().contains(port),
    {
        table_contains(&self.table, port)
    }

    /// Incorporates a new local TCP connection: allocates the next port
    /// (wrapping 65535 to 1) and binds it to a fresh connection token.
    ///
    /// Succeeds exactly when the allocated port is not still live; a
    /// wraparound into a live port fails rather than silently rebinding
    /// it, and the counter advances either way. On success the caller
    /// stores the write half under the returned token, enqueues the open
    /// control packet for the port, and spawns the port's reader task.
    pub fn add_tcp_stream(&mut self) -> (r: Result<(u16, u64), MuxError>)
        requires
            !old(self)@.stopped,
            old(self)@.next_conn < u64::MAX,
        ensures
            final(self)@ == spec_add(old(self)@).0,
            match spec_add(old(self)@).1 {
                Some(assigned) => r == Ok::<(u16, u64), MuxError>(assigned),
                None => r == Err::<(u16, u64), MuxError>(MuxError::TooManyOpenConnections),
            },
    {
        let port = self.next_port;
        self.next_port = if port == 65535 {
            1
        } else {
            port + 1
        };
        if table_contains(&self.table, port) {
            return Err(MuxError::TooManyOpenConnections);
        }
        let conn = self.next_conn;
        self.next_conn = conn + 1;
        table_insert(&mut self.table, port, conn);
        Ok((port, conn))
    }

    /// Demultiplexes one packet received from the peer and returns what
    /// the process must do with it; the only state change is the removal
    /// of a live port the peer closed.
    pub fn handle_packet(&mut self, p: Packet) -> (a: DemuxAction)
        ensures
            final(self)@ == spec_handle(old(self)@, p@).0,
            a@ == spec_handle(old(self)@, p@).1,
    {
        match p {
            Packet::Data { port, data } => {
                if data.len() == 0 {
                    DemuxAction::DropEmptyData
                } else {
                    match table_get(&self.table, port) {
                        Some(conn) => DemuxAction::WriteTcp { conn, data },
                        None => DemuxAction::DropUnknownPort,
                    }
                }
            },
            Packet::Control { msg_type, for_port, status } => {
                if msg_type == 0 {
                    DemuxAction::IgnoreKeepalive
                } else if msg_type != 1 {
                    DemuxAction::DropUnknownControl
                } else if status == 0 {
                    let removed = table_remove(&mut self.table, for_port);
                    match removed {
                        Some(conn) => DemuxAction::CloseTcp { port: for_port, conn },
                        None => {
                            proof {
                                assert(old(self)@.table.remove(for_port) =~= old(self)@.table);
                            }
                            DemuxAction::DropUnknownClose
                        },
                    }
                } else if status == 1 {
                    DemuxAction::RejectPassiveOpen
                } else {
                    DemuxAction::DropUnknownControl
                }
            },
        }
    }

    /// Stops the mux: every table entry is dropped (closing the local
    /// connections) and the mux is marked stopped. Idempotent — see
    /// [`lemma_stop_idempotent`].
    pub fn stop(&mut self)
        ensures
            final(self)@ == spec_stop(old(self)@),
    {
        table_clear(&mut self.table);
        self.stopped = true;
        proof {
            assert(final(self)@.table =~= spec_stop(old(self)@).table);
        }
    }
}

/// The multiplexer's state invariant.
///
/// Ports are handed out from 1 and never through 0; every live entry was
/// bound to a token below the allocation counter; no two live ports share
/// a token (each token names exactly one local write half); and a stopped
/// mux holds no live entry.
pub open spec fn mux_inv(s: MuxView) -> bool {
    &&& s.next_port >= 1
    &&& (forall|p: u16|
        #[trigger] s.table.dom().contains(p) ==> p != 0 && s.table[p] < s.next_conn)
    &&& (forall|p1: u16, p2: u16|
        #![trigger s.table[p1], s.table[p2]]
        s.table.dom().contains(p1) && s.table.dom().contains(p2) && p1 != p2
            ==> s.table[p1] != s.table[p2])
    &&& (s.stopped ==> s.table == empty_table())
}

/// A fresh mux satisfies the invariant.
pub proof fn lemma_init_inv()
    ensures
        mux_inv(spec_init()),
{
}

/// Adding a connection preserves the invariant: the fresh token is
/// strictly above every live one, so injectivity survives the insert.
pub proof fn lemma_add_preserves_inv(s: MuxView)
    requires
        mux_inv(s),
        !s.stopped,
        s.next_conn < u64::MAX,
    ensures
        mux_inv(spec_add(s).0),
{
}

/// Handling a packet preserves the invariant: the table only ever
/// shrinks.
pub proof fn lemma_handle_preserves_inv(s: MuxView, p: PacketModel)
    requires
        mux_inv(s),
    ensures
        mux_inv(spec_handle(s, p).0),
{
}

/// Stopping preserves the invariant.
pub proof fn lemma_stop_preserves_inv(s: MuxView)
    requires
        mux_inv(s),
    ensures
        mux_inv(spec_stop(s)),
{
}

/// One external event the mux state reacts to: an `add_tcp_stream`
/// attempt (taken only while the mux runs and tokens remain), an inbound
/// packet, or a stop.
pub enum MuxEvent {
    Add,
    Inbound { p: PacketModel },
    Stop,
}

/// The state after one event.
pub open spec fn spec_step(s: MuxView, e: MuxEvent) -> MuxView {
    match e {
        MuxEvent::Add => if !s.stopped && s.next_conn < u64::MAX {
            spec_add(s).0
        } else {
            s
        },
        MuxEvent::Inbound { p } => spec_handle(s, p).0,
        MuxEvent::Stop => spec_stop(s),
    }
}

/// The state after a whole sequence of events.
pub open spec fn spec_run(s: MuxView, evs: Seq<MuxEvent>) -> MuxView
    decreases evs.len(),
{
    if evs.len() == 0 {
        s
    } else {
        spec_run(spec_step(s, evs[0]), evs.skip(1))
    }
}

/// Port uniqueness under churn: after any interleaving of connection
/// additions, peer closes and stops, the invariant still holds — the
/// table remains a map (one live binding per port), a wraparound into a
/// live port is refused rather than rebinding it, and no two live ports
/// ever share a connection token.
pub proof fn lemma_port_uniqueness_under_churn(s: MuxView, evs: Seq<MuxEvent>)
    requires
        mux_inv(s),
    ensures
        mux_inv(spec_run(s, evs)),
    decreases evs.len(),
{
    if evs.len() > 0 {
        match evs[0] {
            MuxEvent::Add => {
                if !s.stopped && s.next_conn < u64::MAX {
                    lemma_add_preserves_inv(s);
                }
            },
            MuxEvent::Inbound { p } => {
                lemma_handle_preserves_inv(s, p);
            },
            MuxEvent::Stop => {
                lemma_stop_preserves_inv(s);
            },
        }
        lemma_port_uniqueness_under_churn(spec_step(s, evs[0]), evs.skip(1));
    }
}

/// Stopping twice is the same as stopping once.
pub proof fn lemma_stop_idempotent(s: MuxView)
    ensures
        spec_stop(spec_stop(s)) == spec_stop(s),
{
}

/// On an already-stopped mux, `stop` changes nothing at all.
pub proof fn lemma_stop_noop_when_stopped(s: MuxView)
    requires
        mux_inv(s),
        s.stopped,
    ensures
        spec_stop(s) == s,
{
}

/// The TCP writes the demultiplexer orders while handling `pkts` from
/// state `s`, in order: one entry per delivered data packet.
pub open spec fn spec_writes(s: MuxView, pkts: Seq<PacketModel>) -> Seq<(u64, Seq<u8>)>
    decreases pkts.len(),
{
    if pkts.len() == 0 {
        Seq::empty()
    } else {
        let stepped = spec_handle(s, pkts[0]);
        let rest = spec_writes(stepped.0, pkts.skip(1));
        match stepped.1 {
            DemuxEffect::WriteTcp { conn, data } => seq![(conn, data)] + rest,
            _ => rest,
        }
    }
}

/// The bytes delivered to one local connection: the concatenation of the
/// writes addressed to its token, in order.
pub open spec fn spec_writes_to(ws: Seq<(u64, Seq<u8>)>, conn: u64) -> Seq<u8>
    decreases ws.len(),
{
    if ws.len() == 0 {
        Seq::empty()
    } else if ws[0].0 == conn {
        ws[0].1 + spec_writes_to(ws.skip(1), conn)
    } else {
        spec_writes_to(ws.skip(1), conn)
    }
}

/// The non-empty data payloads addressed to `port`, in arrival order, up
/// to the first peer close of that port — stated over the packet sequence
/// alone.
pub open spec fn spec_payloads_until_closed(pkts: Seq<PacketModel>, port: u16) -> Seq<u8>
    decreases pkts.len(),
{
    if pkts.len() == 0 {
        Seq::empty()
    } else {
        match pkts[0] {
            PacketModel::Data { port: q, data } => {
                if q == port && data.len() > 0 {
                    data + spec_payloads_until_closed(pkts.skip(1), port)
                } else {
                    spec_payloads_until_closed(pkts.skip(1), port)
                }
            },
            PacketModel::Control { msg_type, for_port, status } => {
                if msg_type == 1 && status == 0 && for_port == port {
                    Seq::empty()
                } else {
                    spec_payloads_until_closed(pkts.skip(1), port)
                }
            },
        }
    }
}

/// Unfolds `spec_writes_to` over the first write of a sequence.
proof fn lemma_writes_to_cons(first: (u64, Seq<u8>), ws: Seq<(u64, Seq<u8>)>, conn: u64)
    ensures
        spec_writes_to(seq![first] + ws, conn) == if first.0 == conn {
            first.1 + spec_writes_to(ws, conn)
        } else {
            spec_writes_to(ws, conn)
        },
{
    assert((seq![first] + ws)[0] == first);
    assert((seq![first] + ws).skip(1) =~= ws);
}

/// A token no live port is bound to receives no bytes, whatever arrives:
/// inbound packets never bind new ports.
pub proof fn lemma_conn_absent_no_writes(s: MuxView, pkts: Seq<PacketModel>, conn: u64)
    requires
        mux_inv(s),
        forall|p: u16| #[trigger] s.table.dom().contains(p) ==> s.table[p] != conn,
    ensures
        spec_writes_to(spec_writes(s, pkts), conn) == Seq::<u8>::empty(),
    decreases pkts.len(),
{
    if pkts.len() > 0 {
        let stepped = spec_handle(s, pkts[0]);
        lemma_handle_preserves_inv(s, pkts[0]);
        assert(forall|p: u16|
            #[trigger] stepped.0.table.dom().contains(p) ==> s.table.dom().contains(p)
                && stepped.0.table[p] == s.table[p]);
        lemma_conn_absent_no_writes(stepped.0, pkts.skip(1), conn);
        let rest = spec_writes(stepped.0, pkts.skip(1));
        match stepped.1 {
            DemuxEffect::WriteTcp { conn: c, data } => {
                lemma_writes_to_cons((c, data), rest, conn);
            },
            _ => {
                assert(spec_writes(s, pkts) == rest);
            },
        }
    }
}

/// No cross-port contamination: while `port` is live and bound to the
/// local connection `conn`, the bytes the demultiplexer delivers to
/// `conn` are exactly the non-empty data payloads the peer addressed to
/// `port`, in arrival order, up to the peer's close of that port — and
/// nothing at all after it.
pub proof fn lemma_no_cross_port_contamination(
    s: MuxView,
    pkts: Seq<PacketModel>,
    port: u16,
    conn: u64,
)
    requires
        mux_inv(s),
        s.table.dom().contains(port),
        s.table[port] == conn,
    ensures
        spec_writes_to(spec_writes(s, pkts), conn) == spec_payloads_until_closed(pkts, port),
    decreases pkts.len(),
{
    if pkts.len() > 0 {
        let stepped = spec_handle(s, pkts[0]);
        lemma_handle_preserves_inv(s, pkts[0]);
        let rest = spec_writes(stepped.0, pkts.skip(1));
        match pkts[0] {
            PacketModel::Data { port: q, data } => {
                lemma_no_cross_port_contamination(stepped.0, pkts.skip(1), port, conn);
                if data.len() > 0 && s.table.dom().contains(q) {
                    let c = s.table[q];
                    lemma_writes_to_cons((c, data), rest, conn);
                    if q != port {
                        assert(c != conn);
                    }
                } else {
                    assert(spec_writes(s, pkts) == rest);
                }
            },
            PacketModel::Control { msg_type, for_port, status } => {
                assert(spec_writes(s, pkts) == rest);
                if msg_type == 1 && status == 0 && for_port == port {
                    assert(forall|p: u16|
                        #[trigger] stepped.0.table.dom().contains(p)
                            ==> stepped.0.table[p] != conn);
                    lemma_conn_absent_no_writes(stepped.0, pkts.skip(1), conn);
                } else {
                    lemma_no_cross_port_contamination(stepped.0, pkts.skip(1), port, conn);
                }
            },
        }
    }
}

} // verus!
