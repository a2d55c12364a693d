//! One AURP peer: the two tunnel connections with it, their state machines
//! and timers.
//!
//! Every peer holds two independent one-way connections, one in each
//! direction: we are the **data receiver** on the one we opened, and the
//! **data sender** on the one the peer opened. This module never touches a
//! socket -- the run loop feeds it datagrams and sends the `Action::ToPeer`s
//! it hands back. Every time is in milliseconds.

use vstd::prelude::*;
use vstd::slice::*;

use crate::router::pages::{pages_view, tuple_pages, zi_replies, zi_requests};
use crate::router::table::{Route, RouteChange, TablesView, Which, FAR};
use crate::router::{Action, ActionView, Target};
use crate::wire::aurp::{no_tuple, options_view, AurpView, CmdView, Di, DomainHeader, EventTuple};
use crate::wire::{Addr, Aurp, Cmd, Encode, Ipv4Addr, NetworkTuple};

verus! {

/// Retransmit interval for everything that is retransmitted at all.
pub const RETRY: u64 = 10000;

/// Tries for an Open-Req, an RI-Rsp, an RI-Upd or an RD before giving up.
pub const RETRIES: u32 = 5;

/// Quiet from the peer as data sender before we tickle it.
pub const LAST_HEARD: u64 = 90000;

/// Tickles sent before the peer's routes are dropped.
pub const TICKLE_RETRIES: u32 = 10;

/// Minimum spacing between RI-Upds, so events batch.
pub const UPDATE_INTERVAL: u64 = 10000;

/// Minimum spacing between Open-Req bursts to one configured peer.
pub const RECONNECT_BACKOFF: u64 = 600000;

// Update event codes. 0 is the null event and 5 is ZC, which is reserved and
// which every implementation ignores.
pub const NA: u8 = 1;

pub const ND: u8 = 2;

pub const NRC: u8 = 3;

pub const NDC: u8 = 4;

/// Our side of the connection we opened: the peer is the data sender on it.
#[derive(Debug, Clone, Copy, PartialEq, Eq, Structural)]
pub enum Receiver {
    Unconnected,
    WaitOpenRsp,
    WaitRiRsp,
    Connected,
    WaitTickleAck,
}

/// Our side of the connection the peer opened: we are the data sender on it.
#[derive(Debug, Clone, Copy, PartialEq, Eq, Structural)]
pub enum Sender {
    Unconnected,
    Connected,
    WaitRiRspAck,
    WaitRiUpdAck,
    WaitRdAck,
}

impl Receiver {
    pub open spec fn text(self) -> Seq<char> {
        match self {
            Receiver::Unconnected => "unconnected"@,
            Receiver::WaitOpenRsp => "wait open-rsp"@,
            Receiver::WaitRiRsp => "wait ri-rsp"@,
            Receiver::Connected => "connected"@,
            Receiver::WaitTickleAck => "wait tickle-ack"@,
        }
    }

    pub fn name(self) -> (r: &'static str)
        ensures
            r@ == self.text(),
    {
        match self {
            Receiver::Unconnected => "unconnected",
            Receiver::WaitOpenRsp => "wait open-rsp",
            Receiver::WaitRiRsp => "wait ri-rsp",
            Receiver::Connected => "connected",
            Receiver::WaitTickleAck => "wait tickle-ack",
        }
    }
}

impl Sender {
    pub open spec fn text(self) -> Seq<char> {
        match self {
            Sender::Unconnected => "unconnected"@,
            Sender::Connected => "connected"@,
            Sender::WaitRiRspAck => "wait ri-rsp ack"@,
            Sender::WaitRiUpdAck => "wait ri-upd ack"@,
            Sender::WaitRdAck => "wait rd ack"@,
        }
    }

    pub fn name(self) -> (r: &'static str)
        ensures
            r@ == self.text(),
    {
        match self {
            Sender::Unconnected => "unconnected",
            Sender::Connected => "connected",
            Sender::WaitRiRspAck => "wait ri-rsp ack",
            Sender::WaitRiUpdAck => "wait ri-upd ack",
            Sender::WaitRdAck => "wait rd ack",
        }
    }
}

/// The one sequenced packet a sender may have outstanding, kept verbatim:
/// retransmissions of RI-Rsp and RI-Upd are byte-identical repeats.
#[derive(Debug)]
pub struct Outstanding {
    pub seq: u16,
    pub bytes: Vec<u8>,
    /// The networks this packet named, for the ZI-Rsp an SZI ack asks for.
    pub nets: Vec<u16>,
    pub at: u64,
    pub tries: u32,
}

/// A packet outstanding, as data.
pub struct OutstandingView {
    pub seq: u16,
    pub bytes: Seq<u8>,
    pub nets: Seq<u16>,
    pub at: u64,
    pub tries: u32,
}

impl DeepView for Outstanding {
    type V = OutstandingView;

    open spec fn deep_view(&self) -> OutstandingView {
        OutstandingView {
            seq: self.seq,
            bytes: self.bytes@,
            nets: self.nets@,
            at: self.at,
            tries: self.tries,
        }
    }
}

/// Actions and route changes accumulated while handling one packet or tick.
pub struct Out {
    pub acts: Vec<Action>,
    pub chs: Vec<RouteChange>,
}

/// Where a sequenced packet's number stands against the expected one.
#[derive(Clone, Copy, PartialEq, Eq, Structural)]
pub enum Seqno {
    New,
    Dup,
    Ahead,
    Stale,
}

pub struct Peer {
    pub addr: Ipv4Addr,
    /// The configured name this address was resolved from, if any. Only
    /// configured peers are reconnected to.
    pub configured: Option<String>,
    /// What the peer calls itself: whatever source DI it last used.
    pub di: Di,
    pub receiver: Receiver,
    pub sender: Sender,
    /// Our own domain identifier, copied here so every send is one call.
    pub local: Di,
    // ---- as data receiver: the connection we opened ----
    /// The ID we chose. Differs from the last one used with this peer.
    pub conn_local: u16,
    /// The next sequence number we expect from the peer.
    pub seq_recv: u16,
    pub last_heard: u64,
    /// When the outstanding Open-Req or Tickle went out, and how many have.
    pub recv_at: u64,
    pub recv_tries: u32,
    pub last_reconnect: Option<u64>,
    // ---- as data sender: the connection the peer opened ----
    /// The ID the peer chose.
    pub conn_remote: u16,
    /// The sequence number of our last sequenced packet.
    pub seq_send: u16,
    pub outstanding: Option<Outstanding>,
    /// RI-Rsp pages not yet sent; each waits for the previous one's ack.
    pub pages: Vec<Vec<NetworkTuple>>,
    /// Route changes not yet sent, one collapsed event per network.
    pub pending: Vec<EventTuple>,
    pub last_update: u64,
    /// A null RI-Upd is out probing whether a conflicting Open-Req is genuine.
    pub probing: bool,
}

/// A peer, as data.
pub struct PeerView {
    pub addr: Ipv4Addr,
    pub configured: Option<Seq<char>>,
    pub di: Di,
    pub receiver: Receiver,
    pub sender: Sender,
    pub local: Di,
    pub conn_local: u16,
    pub seq_recv: u16,
    pub last_heard: u64,
    pub recv_at: u64,
    pub recv_tries: u32,
    pub last_reconnect: Option<u64>,
    pub conn_remote: u16,
    pub seq_send: u16,
    pub outstanding: Option<OutstandingView>,
    pub pages: Seq<Seq<NetworkTuple>>,
    pub pending: Seq<EventTuple>,
    pub last_update: u64,
    pub probing: bool,
}

impl DeepView for Peer {
    type V = PeerView;

    open spec fn deep_view(&self) -> PeerView {
        PeerView {
            addr: self.addr,
            configured: self.configured.deep_view(),
            di: self.di,
            receiver: self.receiver,
            sender: self.sender,
            local: self.local,
            conn_local: self.conn_local,
            seq_recv: self.seq_recv,
            last_heard: self.last_heard,
            recv_at: self.recv_at,
            recv_tries: self.recv_tries,
            last_reconnect: self.last_reconnect,
            conn_remote: self.conn_remote,
            seq_send: self.seq_send,
            outstanding: self.outstanding.deep_view(),
            pages: pages_view(self.pages@),
            pending: self.pending@,
            last_update: self.last_update,
            probing: self.probing,
        }
    }
}

/// What handling something leaves behind: the peer, the tables, and the
/// actions and route changes it brought about.
pub struct Step {
    pub peer: PeerView,
    pub tables: TablesView,
    pub acts: Seq<ActionView>,
    pub chs: Seq<RouteChange>,
}

// ----------------------------------------------------------------- numbers

/// Sequence numbers and connection IDs both skip 0: 65535 is followed by 1.
pub open spec fn succ_of(n: u16) -> u16 {
    if n == 0xffff {
        1
    } else {
        (n + 1) as u16
    }
}

/// The number before, 0 skipped: 1 is preceded by 65535.
pub open spec fn pred_of(n: u16) -> u16 {
    if n <= 1 {
        0xffff
    } else {
        (n - 1) as u16
    }
}

pub fn succ(n: u16) -> (r: u16)
    ensures
        r == succ_of(n),
        r != 0,
{
    if n == 0xffff {
        1
    } else {
        n + 1
    }
}

pub fn pred(n: u16) -> (r: u16)
    ensures
        r == pred_of(n),
        r != 0,
{
    if n <= 1 {
        0xffff
    } else {
        n - 1
    }
}

/// The connection ID the first peer starts from. It must differ from the last
/// one used with a sender, and a restart has no memory of that, so it comes
/// from the fraction of the wall clock's second, in nanoseconds.
pub fn seed_conn(nanos: u32) -> (r: u16)
    ensures
        r == succ_of((nanos % 0x10000) as u16),
        r != 0,
{
    succ((nanos % 0x10000) as u16)
}

/// How long ago `t` was; nothing if the clock says it is still to come.
pub open spec fn since(now: u64, t: u64) -> u64 {
    if now >= t {
        (now - t) as u64
    } else {
        0
    }
}

pub fn elapsed(now: u64, t: u64) -> (r: u64)
    ensures
        r == since(now, t),
{
    if now >= t {
        now - t
    } else {
        0
    }
}

/// "Call you by what you call yourself": a peer's own source DI is how it is
/// addressed from then on. A null DI names nobody, so the IP header stands in.
pub open spec fn called(src: Di, from: Ipv4Addr) -> Di {
    match src {
        Di::Null => Di::Ip(from),
        Di::Ip(a) => Di::Ip(a),
    }
}

pub fn named_by(src: Di, from: Ipv4Addr) -> (r: Di)
    ensures
        r == called(src, from),
{
    match src {
        Di::Null => Di::Ip(from),
        di => di,
    }
}

/// The update that says nothing: a probe of a connection.
pub open spec fn null_update() -> CmdView {
    CmdView::RiUpd { events: seq![EventTuple { code: 0, tuple: no_tuple() }] }
}

pub fn null_upd() -> (r: Cmd)
    ensures
        r.deep_view() == null_update(),
{
    let tuple = NetworkTuple { range: (0, 0), extended: false, distance: 0 };
    let events: Vec<EventTuple> = vec![EventTuple { code: 0, tuple }];
    assert(events@ =~= seq![EventTuple { code: 0, tuple: no_tuple() }]);
    Cmd::RiUpd { events }
}

/// The tuple a route is told to a peer as.
pub fn tuple_of(r: &Route) -> (t: NetworkTuple)
    ensures
        t == r.as_tuple(),
{
    NetworkTuple { range: r.range, extended: r.extended, distance: r.distance }
}

/// Nothing learned over a tunnel has a next router on a cable.
pub open spec fn no_next() -> Addr {
    Addr { net: 0, node: 0 }
}

// ------------------------------------------------------------------ tables

/// What learning one tuple from a peer does to the tables, and reports.
pub open spec fn learned(v: TablesView, t: NetworkTuple, peer: Ipv4Addr, now: u64) -> (
    TablesView,
    Seq<RouteChange>,
) {
    let n = v.learn(t, Target::Peer(peer), no_next(), now);
    (
        n,
        if v.clashes(t.range) {
            Seq::empty()
        } else {
            v.changes(n, seq![t.range.0])
        },
    )
}

/// Every tuple of an RI-Rsp in turn; one at 15 hops or more is passed over.
pub open spec fn learned_all(
    v: TablesView,
    ts: Seq<NetworkTuple>,
    peer: Ipv4Addr,
    now: u64,
) -> (TablesView, Seq<RouteChange>)
    decreases ts.len(),
{
    if ts.len() == 0 {
        (v, Seq::empty())
    } else {
        let (m, chs) = learned_all(v, ts.drop_last(), peer, now);
        if ts.last().distance < FAR {
            let (n, more) = learned(m, ts.last(), peer, now);
            (n, chs + more)
        } else {
            (m, chs)
        }
    }
}

/// Whether the tables hold a route to a range through a peer.
pub open spec fn knows(v: TablesView, peer: Ipv4Addr, start: u16) -> bool {
    exists|i: int|
        0 <= i < v.routes.len() && (#[trigger] v.routes[i]).target == Target::Peer(peer)
            && v.routes[i].range.0 == start
}

/// The tables without a peer's route to a range, and what that reports.
pub open spec fn dropped(v: TablesView, peer: Ipv4Addr, start: u16) -> (
    TablesView,
    Seq<RouteChange>,
) {
    let n = v.remove(Target::Peer(peer), start);
    (n, v.changes(n, seq![start]))
}

/// One update event. Inconsistent ones are expected: NA for a network we know
/// is a distance change and NDC for one we do not know an addition, ND and NRC
/// for one we do not know remove nothing, and 15 hops means gone. The null
/// event, ZC and anything else change nothing.
pub open spec fn applied(v: TablesView, e: EventTuple, peer: Ipv4Addr, now: u64) -> (
    TablesView,
    Seq<RouteChange>,
) {
    let start = e.tuple.range.0;
    let far = e.tuple.distance >= FAR;
    if e.code == NA {
        if far {
            dropped(v, peer, start)
        } else {
            learned(v, e.tuple, peer, now)
        }
    } else if e.code == ND || e.code == NRC {
        dropped(v, peer, start)
    } else if e.code == NDC {
        if far {
            dropped(v, peer, start)
        } else if !knows(v, peer, start) {
            learned(v, e.tuple, peer, now)
        } else {
            // The stored distance is the peer's plus the tunnel hop.
            let n = v.set_distance(
                Target::Peer(peer),
                start,
                (e.tuple.distance + 1) as u8,
                now,
            );
            (n, v.changes(n, seq![start]))
        }
    } else {
        (v, Seq::empty())
    }
}

/// Events in packet order.
pub open spec fn applied_all(
    v: TablesView,
    es: Seq<EventTuple>,
    peer: Ipv4Addr,
    now: u64,
) -> (TablesView, Seq<RouteChange>)
    decreases es.len(),
{
    if es.len() == 0 {
        (v, Seq::empty())
    } else {
        let (m, chs) = applied_all(v, es.drop_last(), peer, now);
        let (n, more) = applied(m, es.last(), peer, now);
        (n, chs + more)
    }
}

/// The networks of a zone list, each once, in the order they first appear.
pub open spec fn nets_named(zs: Seq<(u16, Seq<char>)>) -> Seq<u16>
    decreases zs.len(),
{
    if zs.len() == 0 {
        Seq::empty()
    } else {
        let s = nets_named(zs.drop_last());
        if s.contains(zs.last().0) {
            s
        } else {
            s.push(zs.last().0)
        }
    }
}

/// The names a zone list gives one network.
pub open spec fn names_for(zs: Seq<(u16, Seq<char>)>, net: u16) -> Seq<Seq<char>>
    decreases zs.len(),
{
    if zs.len() == 0 {
        Seq::empty()
    } else if zs.last().0 == net {
        names_for(zs.drop_last(), net).push(zs.last().1)
    } else {
        names_for(zs.drop_last(), net)
    }
}

/// Split horizon in reverse: a peer has nothing to tell us about a cable of
/// our own.
pub open spec fn on_our_cable(v: TablesView, net: u16) -> bool {
    v.pick(Which::Net(net)) matches Some(r) && r.target is Port
}

/// The total an extended reply names.
pub open spec fn total_of(extended: Option<u16>) -> Option<usize> {
    match extended {
        Some(n) => Some(n as usize),
        None => None,
    }
}

/// The zones of the networks `nets`, added in turn.
pub open spec fn zones_added(
    v: TablesView,
    nets: Seq<u16>,
    zs: Seq<(u16, Seq<char>)>,
    extended: Option<u16>,
) -> (TablesView, Seq<RouteChange>)
    decreases nets.len(),
{
    if nets.len() == 0 {
        (v, Seq::empty())
    } else {
        let (m, chs) = zones_added(v, nets.drop_last(), zs, extended);
        let net = nets.last();
        if on_our_cable(m, net) {
            (m, chs)
        } else {
            let n = m.add_zones(net, names_for(zs, net), total_of(extended));
            (n, chs + m.became_exportable(n, net))
        }
    }
}

// ------------------------------------------------------------------ events

/// The first pending event for a network.
pub open spec fn pending_for(pending: Seq<EventTuple>, start: u16) -> Option<int>
    decreases pending.len(),
{
    if pending.len() == 0 {
        None
    } else {
        match pending_for(pending.drop_last(), start) {
            Some(i) => Some(i),
            None => if pending.last().tuple.range.0 == start {
                Some(pending.len() - 1)
            } else {
                None
            },
        }
    }
}

/// The pending events with one more, collapsed with whatever is already
/// pending for the same network: added then deleted says nothing, since the
/// peer never heard of it; an addition at a new distance is still an addition;
/// deleted then added back is a distance change; otherwise the last one wins.
pub open spec fn collapsed(pending: Seq<EventTuple>, ev: EventTuple) -> Seq<EventTuple> {
    match pending_for(pending, ev.tuple.range.0) {
        None => pending.push(ev),
        Some(i) => {
            let was = pending[i].code;
            if was == NA && (ev.code == ND || ev.code == NRC) {
                pending.remove(i)
            } else if was == NA && ev.code == NDC {
                pending.update(i, EventTuple { code: NA, tuple: ev.tuple })
            } else if (was == ND || was == NRC) && ev.code == NA {
                pending.update(i, EventTuple { code: NDC, tuple: ev.tuple })
            } else {
                pending.update(i, ev)
            }
        },
    }
}

/// The networks an update adds: the ones an SZI ack asks the zones of.
pub open spec fn nets_added(es: Seq<EventTuple>) -> Seq<u16>
    decreases es.len(),
{
    if es.len() == 0 {
        Seq::empty()
    } else if es.last().code == NA {
        nets_added(es.drop_last()).push(es.last().tuple.range.0)
    } else {
        nets_added(es.drop_last())
    }
}

/// Whether an update adds a network.
pub open spec fn adds(es: Seq<EventTuple>) -> bool {
    exists|i: int| 0 <= i < es.len() && (#[trigger] es[i]).code == NA
}

/// The range starts of tuples.
pub open spec fn starts_of(ts: Seq<NetworkTuple>) -> Seq<u16> {
    Seq::new(ts.len(), |i: int| ts[i].range.0)
}

// -------------------------------------------------------------- the machine

impl PeerView {
    /// All our packets are addressed to what the peer calls itself and signed
    /// with our own identity.
    pub open spec fn packet(self, conn: u16, seq: u16, cmd: CmdView) -> Seq<u8> {
        (AurpView::Routing {
            dh: DomainHeader { dst: self.di, src: self.local },
            conn,
            seq,
            cmd,
        }).bytes()
    }

    pub open spec fn send(self, conn: u16, seq: u16, cmd: CmdView) -> ActionView {
        ActionView::ToPeer { peer: self.addr, bytes: self.packet(conn, seq, cmd) }
    }

    /// Transactions, one after the other.
    pub open spec fn sends(self, conn: u16, cmds: Seq<CmdView>) -> Seq<ActionView> {
        Seq::new(cmds.len(), |i: int| self.send(conn, 0, cmds[i]))
    }

    /// The next sequenced packet.
    pub open spec fn sequenced_act(self, cmd: CmdView) -> ActionView {
        self.send(self.conn_remote, succ_of(self.seq_send), cmd)
    }

    /// The peer with that packet outstanding.
    pub open spec fn sequenced(self, cmd: CmdView, nets: Seq<u16>, now: u64) -> PeerView {
        PeerView {
            seq_send: succ_of(self.seq_send),
            outstanding: Some(
                OutstandingView {
                    seq: succ_of(self.seq_send),
                    bytes: self.packet(self.conn_remote, succ_of(self.seq_send), cmd),
                    nets,
                    at: now,
                    tries: 1,
                },
            ),
            ..self
        }
    }

    /// Asking for a connection of our own.
    pub open spec fn opened(self, now: u64) -> PeerView {
        PeerView {
            seq_recv: 1,
            receiver: Receiver::WaitOpenRsp,
            recv_at: now,
            recv_tries: 1,
            last_reconnect: Some(now),
            ..self
        }
    }

    pub open spec fn open_act(self) -> ActionView {
        self.send(
            self.conn_local,
            0,
            CmdView::OpenReq { sui: 0x7800, version: 1, options: Seq::empty() },
        )
    }

    /// Closed as data receiver. The next Open-Req must carry a different
    /// connection ID or the peer takes it for a retransmission.
    pub open spec fn receiver_closed(self) -> PeerView {
        PeerView {
            receiver: Receiver::Unconnected,
            conn_local: succ_of(self.conn_local),
            seq_recv: 1,
            recv_tries: 0,
            ..self
        }
    }

    pub open spec fn sender_closed(self) -> PeerView {
        PeerView {
            sender: Sender::Unconnected,
            conn_remote: 0,
            seq_send: 0,
            outstanding: None,
            pages: Seq::empty(),
            pending: Seq::empty(),
            probing: false,
            ..self
        }
    }

    /// True once the connection we opened is far enough along to carry
    /// sequenced data or a ZI-Req.
    pub open spec fn receives(self) -> bool {
        self.receiver != Receiver::Unconnected && self.receiver != Receiver::WaitOpenRsp
    }

    /// A packet on the connection the peer opened, while we serve it.
    pub open spec fn serves(self, conn: u16) -> bool {
        conn == self.conn_remote && self.sender != Sender::Unconnected
    }

    pub open spec fn standing(self, seq: u16) -> Seqno {
        if seq == 0 {
            Seqno::Stale  // 0 is never a sequence number

        } else if seq == self.seq_recv {
            Seqno::New
        } else if seq == pred_of(self.seq_recv) {
            Seqno::Dup
        } else if seq == succ_of(self.seq_recv) {
            Seqno::Ahead
        } else {
            Seqno::Stale
        }
    }

    /// Nothing happens.
    pub open spec fn quiet(self, tables: TablesView) -> Step {
        Step { peer: self, tables, acts: Seq::empty(), chs: Seq::empty() }
    }

    /// One packet goes out.
    pub open spec fn says(self, tables: TablesView, act: ActionView) -> Step {
        Step { peer: self, tables, acts: seq![act], chs: Seq::empty() }
    }

    /// Rate 1 and no environment flags: no remapping, no hop-count reduction.
    pub open spec fn open_rsp(self, conn: u16, rate_or_err: i16) -> ActionView {
        self.send(conn, 0, CmdView::OpenRsp { env: 0, rate_or_err, options: Seq::empty() })
    }

    /// An Open-Req. A version other than 1 and any options are refused. A
    /// different ID on an open connection probably means the peer restarted --
    /// but it may be a forgery, so the old connection is probed, and the
    /// request answered only once that goes unanswered. Anything else makes us
    /// the data sender, and opens our own direction if it is not open.
    pub open spec fn open_req(
        self,
        conn: u16,
        version: u16,
        options: Seq<(u8, Seq<u8>)>,
        tables: TablesView,
        now: u64,
    ) -> Step {
        if version != 1 {
            self.says(tables, self.open_rsp(conn, (-5) as i16))
        } else if options.len() > 0 {
            self.says(tables, self.open_rsp(conn, (-4) as i16))
        } else if self.sender != Sender::Unconnected && conn != self.conn_remote {
            if !self.probing && self.outstanding is None {
                let p = PeerView { probing: true, ..self };
                PeerView {
                    sender: Sender::WaitRiUpdAck,
                    ..p.sequenced(null_update(), Seq::empty(), now)
                }.says(tables, self.sequenced_act(null_update()))
            } else {
                self.quiet(tables)
            }
        } else {
            let p = PeerView {
                conn_remote: conn,
                seq_send: 0,
                outstanding: None,
                pages: Seq::empty(),
                sender: Sender::Connected,
                ..self
            };
            if self.receiver == Receiver::Unconnected {
                Step {
                    peer: p.opened(now),
                    tables,
                    acts: seq![self.open_rsp(conn, 1), self.open_act()],
                    chs: Seq::empty(),
                }
            } else {
                p.says(tables, self.open_rsp(conn, 1))
            }
        }
    }

    /// Sends the next RI-Rsp page, with Last set once it is the final one.
    pub open spec fn page_sent(self, tables: TablesView, now: u64) -> Step {
        if self.pages.len() == 0 {
            self.quiet(tables)
        } else {
            let p = PeerView { pages: self.pages.drop_first(), ..self };
            let cmd = CmdView::RiRsp { last: self.pages.len() == 1, tuples: self.pages[0] };
            PeerView {
                sender: Sender::WaitRiRspAck,
                ..p.sequenced(cmd, starts_of(self.pages[0]), now)
            }.says(tables, self.sequenced_act(cmd))
        }
    }

    /// A refresh at any time: the sequence restarts at 1.
    pub open spec fn refreshed(self, tables: TablesView, now: u64) -> Step {
        PeerView {
            seq_send: 0,
            outstanding: None,
            pages: tuple_pages(tables.export()).pages,
            ..self
        }.page_sent(tables, now)
    }

    /// An RI-Ack counts only against the packet actually outstanding. It may
    /// ask for the zones of what that packet named, and it lets the next page
    /// out or settles the connection.
    pub open spec fn ri_ack(self, seq: u16, szi: bool, tables: TablesView, now: u64) -> Step {
        match self.outstanding {
            None => self.quiet(tables),
            Some(o) => if o.seq != seq {
                self.quiet(tables)
            } else {
                let zones = if szi {
                    self.sends(self.conn_remote, zi_replies(o.nets, tables))
                } else {
                    Seq::empty()
                };
                let p = PeerView { outstanding: None, ..self };
                if self.sender == Sender::WaitRiRspAck && self.pages.len() > 0 {
                    let s = p.page_sent(tables, now);
                    Step { acts: zones + s.acts, ..s }
                } else if self.sender == Sender::WaitRiRspAck || self.sender
                    == Sender::WaitRiUpdAck {
                    Step {
                        peer: PeerView { sender: Sender::Connected, probing: false, ..p },
                        tables,
                        acts: zones,
                        chs: Seq::empty(),
                    }
                } else if self.sender == Sender::WaitRdAck {
                    Step { peer: p.sender_closed(), tables, acts: zones, chs: Seq::empty() }
                } else {
                    Step { peer: p, tables, acts: zones, chs: Seq::empty() }
                }
            },
        }
    }

    /// An answer to our Open-Req: an error closes, a rate lets us ask for the
    /// peer's routes.
    pub open spec fn open_answered(self, rate_or_err: i16, tables: TablesView, now: u64) -> Step {
        if rate_or_err < 0 {
            self.receiver_closed().quiet(tables)
        } else {
            PeerView {
                receiver: Receiver::WaitRiRsp,
                seq_recv: 1,
                recv_tries: 1,
                recv_at: now,
                last_heard: now,
                ..self
            }.says(tables, self.send(self.conn_local, 0, CmdView::RiReq { sui: 0x7800 }))
        }
    }

    /// A page of the peer's routes: new data is learned and acked, a duplicate
    /// re-acked, and a gap closes the connection.
    pub open spec fn ri_rsp(
        self,
        seq: u16,
        last: bool,
        tuples: Seq<NetworkTuple>,
        tables: TablesView,
        now: u64,
    ) -> Step {
        let p = PeerView { last_heard: now, ..self };
        let ack = self.send(self.conn_local, seq, CmdView::RiAck { szi: true });
        match self.standing(seq) {
            Seqno::New => {
                let (n, chs) = learned_all(tables, tuples, self.addr, now);
                Step {
                    peer: PeerView {
                        seq_recv: succ_of(seq),
                        receiver: if last {
                            Receiver::Connected
                        } else {
                            self.receiver
                        },
                        ..p
                    },
                    tables: n,
                    acts: seq![ack],
                    chs,
                }
            },
            Seqno::Dup => p.says(tables, ack),
            Seqno::Ahead => p.receiver_closed().quiet(tables),
            Seqno::Stale => p.quiet(tables),
        }
    }

    /// An update: as for a page, with its events applied. The ack asks for
    /// zones if a network was added, or if it is a repeat, whose zones are
    /// likelier to have been lost than our ack.
    pub open spec fn ri_upd(
        self,
        seq: u16,
        events: Seq<EventTuple>,
        tables: TablesView,
        now: u64,
    ) -> Step {
        let p = PeerView { last_heard: now, ..self };
        match self.standing(seq) {
            Seqno::New => {
                let (n, chs) = applied_all(tables, events, self.addr, now);
                Step {
                    peer: PeerView { seq_recv: succ_of(seq), ..p },
                    tables: n,
                    acts: seq![
                        self.send(self.conn_local, seq, CmdView::RiAck { szi: adds(events) }),
                    ],
                    chs,
                }
            },
            Seqno::Dup => p.says(
                tables,
                self.send(self.conn_local, seq, CmdView::RiAck { szi: true }),
            ),
            Seqno::Ahead => p.receiver_closed().quiet(tables),
            Seqno::Stale => p.quiet(tables),
        }
    }

    /// The peer is going down: everything learned from it is dropped, and both
    /// directions close. It is sequenced data like any other.
    pub open spec fn rd(self, seq: u16, tables: TablesView) -> Step {
        let ack = self.send(self.conn_local, seq, CmdView::RiAck { szi: false });
        match self.standing(seq) {
            Seqno::New => {
                let t = Target::Peer(self.addr);
                let n = tables.remove_target(t);
                Step {
                    peer: self.receiver_closed().sender_closed(),
                    tables: n,
                    acts: seq![ack],
                    chs: tables.changes(
                        n,
                        crate::router::table::starts_in(tables.routes, Some(t)),
                    ),
                }
            },
            Seqno::Dup => self.says(tables, ack),
            Seqno::Ahead => self.receiver_closed().quiet(tables),
            Seqno::Stale => self.quiet(tables),
        }
    }

    pub open spec fn zi_rsp(
        self,
        extended: Option<u16>,
        zones: Seq<(u16, Seq<char>)>,
        tables: TablesView,
        now: u64,
    ) -> Step {
        let (n, chs) = zones_added(tables, nets_named(zones), zones, extended);
        Step {
            peer: PeerView { last_heard: now, ..self },
            tables: n,
            acts: Seq::empty(),
            chs,
        }
    }

    /// One routing packet, dispatched by command. A transaction that carries a
    /// sequence number is malformed, and everything addressed to a connection
    /// ID that is not the one expected is discarded.
    #[verifier::opaque]
    pub open spec fn routing(
        self,
        conn: u16,
        seq: u16,
        cmd: CmdView,
        tables: TablesView,
        now: u64,
    ) -> Step {
        let ours = conn == self.conn_local && self.receives();
        if cmd.transaction() && seq != 0 {
            self.quiet(tables)
        } else {
            match cmd {
                // ------------------------------------- as the data sender
                CmdView::OpenReq { version, options, .. } => self.open_req(
                    conn,
                    version,
                    options,
                    tables,
                    now,
                ),
                // Not while an RD is out: we are on the way down, and
                // restarting the export would abandon it.
                CmdView::RiReq { .. } => if self.serves(conn) && self.sender
                    != Sender::WaitRdAck {
                    self.refreshed(tables, now)
                } else {
                    self.quiet(tables)
                },
                CmdView::RiAck { szi } => if conn == self.conn_remote {
                    self.ri_ack(seq, szi, tables, now)
                } else {
                    self.quiet(tables)
                },
                // The remote ID is 0 until a peer opens its connection, so
                // without the state guard a stranger's packet carrying 0 would
                // turn us into a reflector.
                CmdView::Tickle => if self.serves(conn) {
                    self.says(tables, self.send(conn, 0, CmdView::TickleAck))
                } else {
                    self.quiet(tables)
                },
                CmdView::ZiReq { nets } => if self.serves(conn) {
                    Step {
                        peer: self,
                        tables,
                        acts: self.sends(conn, zi_replies(nets, tables)),
                        chs: Seq::empty(),
                    }
                } else {
                    self.quiet(tables)
                },
                // Neither is supported, and neither costs any state to refuse.
                CmdView::GznReq { zone } => if self.serves(conn) {
                    self.says(
                        tables,
                        self.send(conn, 0, CmdView::GznRsp { zone, tuples: None }),
                    )
                } else {
                    self.quiet(tables)
                },
                CmdView::GdzlReq { .. } => if self.serves(conn) {
                    self.says(
                        tables,
                        self.send(
                            conn,
                            0,
                            CmdView::GdzlRsp { last: true, start: (-1) as i16, zones: Seq::empty() },
                        ),
                    )
                } else {
                    self.quiet(tables)
                },
                // ----------------------------------- as the data receiver
                CmdView::OpenRsp { rate_or_err, .. } => if conn == self.conn_local
                    && self.receiver == Receiver::WaitOpenRsp {
                    self.open_answered(rate_or_err, tables, now)
                } else {
                    self.quiet(tables)
                },
                CmdView::RiRsp { last, tuples } => if ours {
                    self.ri_rsp(seq, last, tuples, tables, now)
                } else {
                    self.quiet(tables)
                },
                CmdView::RiUpd { events } => if ours {
                    self.ri_upd(seq, events, tables, now)
                } else {
                    self.quiet(tables)
                },
                CmdView::Rd { .. } => if ours {
                    self.rd(seq, tables)
                } else {
                    self.quiet(tables)
                },
                CmdView::ZiRsp { extended, zones } => if ours {
                    self.zi_rsp(extended, zones, tables, now)
                } else {
                    self.quiet(tables)
                },
                CmdView::TickleAck => if conn == self.conn_local && self.receiver
                    == Receiver::WaitTickleAck {
                    PeerView {
                        receiver: Receiver::Connected,
                        recv_tries: 0,
                        last_heard: now,
                        ..self
                    }.quiet(tables)
                } else {
                    self.quiet(tables)
                },
                _ => self.quiet(tables),
            }
        }
    }

    // ------------------------------------------------------------- timers

    /// A configured peer we hold no connection to is asked again, at most once
    /// in `RECONNECT_BACKOFF`.
    pub open spec fn reconnects(self, now: u64) -> bool {
        &&& self.configured is Some && self.receiver == Receiver::Unconnected
        &&& match self.last_reconnect {
            Some(t) => since(now, t) > RECONNECT_BACKOFF,
            None => true,
        }
    }

    pub open spec fn reconnected(self, tables: TablesView, now: u64) -> Step {
        if self.reconnects(now) {
            self.opened(now).says(tables, self.open_act())
        } else {
            self.quiet(tables)
        }
    }

    /// Our end as data receiver. Open-Req and RI-Req are repeated, then given
    /// up; a quiet connection is tickled, and ten tickles without an answer
    /// drop the peer's routes -- and probe the other direction.
    pub open spec fn receiver_ticked(self, tables: TablesView, now: u64) -> Step {
        let waiting = self.receiver == Receiver::WaitOpenRsp || self.receiver
            == Receiver::WaitRiRsp;
        if waiting && since(now, self.recv_at) >= RETRY {
            if self.recv_tries >= RETRIES {
                self.receiver_closed().quiet(tables)
            } else {
                PeerView { recv_tries: (self.recv_tries + 1) as u32, recv_at: now, ..self }.says(
                    tables,
                    if self.receiver == Receiver::WaitOpenRsp {
                        self.open_act()
                    } else {
                        self.send(self.conn_local, 0, CmdView::RiReq { sui: 0x7800 })
                    },
                )
            }
        } else if self.receiver == Receiver::Connected && since(now, self.last_heard)
            > LAST_HEARD {
            PeerView {
                receiver: Receiver::WaitTickleAck,
                recv_tries: 1,
                recv_at: now,
                ..self
            }.says(tables, self.send(self.conn_local, 0, CmdView::Tickle))
        } else if self.receiver == Receiver::WaitTickleAck && since(now, self.recv_at) >= RETRY {
            if self.recv_tries >= TICKLE_RETRIES {
                let t = Target::Peer(self.addr);
                let n = tables.remove_target(t);
                let chs = tables.changes(
                    n,
                    crate::router::table::starts_in(tables.routes, Some(t)),
                );
                let p = self.receiver_closed();
                if self.sender == Sender::Connected {
                    Step {
                        peer: PeerView {
                            sender: Sender::WaitRiUpdAck,
                            ..p.sequenced(null_update(), Seq::empty(), now)
                        },
                        tables: n,
                        acts: seq![self.sequenced_act(null_update())],
                        chs,
                    }
                } else {
                    Step { peer: p, tables: n, acts: Seq::empty(), chs }
                }
            } else {
                PeerView { recv_tries: (self.recv_tries + 1) as u32, recv_at: now, ..self }.says(
                    tables,
                    self.send(self.conn_local, 0, CmdView::Tickle),
                )
            }
        } else {
            self.quiet(tables)
        }
    }

    /// Our end as data sender. The packet outstanding is repeated byte for
    /// byte, then given up; with none out, what is pending goes out once the
    /// update interval has passed.
    pub open spec fn sender_ticked(self, tables: TablesView, now: u64) -> Step {
        match self.outstanding {
            Some(o) => if since(now, o.at) >= RETRY {
                if o.tries >= RETRIES {
                    self.sender_closed().quiet(tables)
                } else {
                    PeerView {
                        outstanding: Some(
                            OutstandingView { tries: (o.tries + 1) as u32, at: now, ..o },
                        ),
                        ..self
                    }.says(tables, ActionView::ToPeer { peer: self.addr, bytes: o.bytes })
                }
            } else {
                self.quiet(tables)
            },
            None => if self.sender == Sender::Connected && self.pending.len() > 0 && since(
                now,
                self.last_update,
            ) >= UPDATE_INTERVAL {
                let cmd = CmdView::RiUpd { events: self.pending };
                let p = PeerView { pending: Seq::empty(), last_update: now, ..self };
                PeerView {
                    sender: Sender::WaitRiUpdAck,
                    ..p.sequenced(cmd, nets_added(self.pending), now)
                }.says(tables, self.sequenced_act(cmd))
            } else {
                self.quiet(tables)
            },
        }
    }

    /// The networks behind this peer that still miss zones.
    pub open spec fn zoneless(self, tables: TablesView) -> Seq<u16> {
        starts_through(tables.zoneless(), Target::Peer(self.addr))
    }

    /// A lost ZI-Rsp leaves a network with no zones forever unless somebody
    /// asks again.
    pub open spec fn zi_asked(self, tables: TablesView) -> Step {
        if self.receives() {
            Step {
                peer: self,
                tables,
                acts: self.sends(self.conn_local, zi_requests(self.zoneless(tables))),
                chs: Seq::empty(),
            }
        } else {
            self.quiet(tables)
        }
    }

    /// The RD that ends a connection we serve.
    pub open spec fn shut(self, now: u64) -> PeerView {
        if self.sender == Sender::Unconnected || self.sender == Sender::WaitRdAck {
            self
        } else {
            let p = PeerView { outstanding: None, pages: Seq::empty(), ..self };
            PeerView {
                sender: Sender::WaitRdAck,
                ..p.sequenced(CmdView::Rd { code: (-1) as i16 }, Seq::empty(), now)
            }
        }
    }

    pub open spec fn shut_acts(self) -> Seq<ActionView> {
        if self.sender == Sender::Unconnected || self.sender == Sender::WaitRdAck {
            Seq::empty()
        } else {
            seq![self.sequenced_act(CmdView::Rd { code: (-1) as i16 })]
        }
    }
}

/// The range starts of the routes through a target.
pub open spec fn starts_through(rs: Seq<Route>, t: Target) -> Seq<u16>
    decreases rs.len(),
{
    if rs.len() == 0 {
        Seq::empty()
    } else if rs.last().target == t {
        starts_through(rs.drop_last(), t).push(rs.last().range.0)
    } else {
        starts_through(rs.drop_last(), t)
    }
}

// --------------------------------------------------------------- execution

/// What came out while something was handled.
pub open spec fn grew(
    before: Out,
    after: Out,
    acts: Seq<ActionView>,
    chs: Seq<RouteChange>,
) -> bool {
    &&& after.acts.deep_view() == before.acts.deep_view() + acts
    &&& after.chs@ == before.chs@ + chs
}

impl Out {
    pub fn new() -> (r: Out)
        ensures
            r.acts.deep_view() == Seq::<ActionView>::empty(),
            r.chs@ == Seq::<RouteChange>::empty(),
    {
        let r = Out { acts: Vec::new(), chs: Vec::new() };
        assert(r.acts.deep_view() =~= Seq::empty());
        r
    }

    /// Adds one action.
    pub fn act(&mut self, a: Action)
        ensures
            grew(*old(self), *final(self), seq![a.deep_view()], Seq::empty()),
    {
        let ghost before = self.acts.deep_view();
        let ghost av = a.deep_view();
        self.acts.push(a);
        assert(self.acts.deep_view() =~= before + seq![av]);
        assert(self.chs@ =~= old(self).chs@ + Seq::<RouteChange>::empty());
    }

    /// Adds route changes.
    pub fn changed(&mut self, c: Vec<RouteChange>)
        ensures
            grew(*old(self), *final(self), Seq::empty(), c@),
    {
        let mut c = c;
        let ghost cv = c@;
        self.chs.append(&mut c);
        assert(self.acts.deep_view() =~= old(self).acts.deep_view() + Seq::<ActionView>::empty());
        assert(self.chs@ =~= old(self).chs@ + cv);
    }
}

/// What comes out twice over comes out at once.
pub proof fn lemma_grew(
    a: Out,
    b: Out,
    c: Out,
    x: Seq<ActionView>,
    xc: Seq<RouteChange>,
    y: Seq<ActionView>,
    yc: Seq<RouteChange>,
)
    requires
        grew(a, b, x, xc),
        grew(b, c, y, yc),
    ensures
        grew(a, c, x + y, xc + yc),
{
    assert(c.acts.deep_view() =~= a.acts.deep_view() + (x + y));
    assert(c.chs@ =~= a.chs@ + (xc + yc));
}

/// Nothing coming out.
pub proof fn lemma_same(a: Out)
    ensures
        grew(a, a, Seq::empty(), Seq::empty()),
{
    assert(a.acts.deep_view() =~= a.acts.deep_view() + Seq::<ActionView>::empty());
    assert(a.chs@ =~= a.chs@ + Seq::<RouteChange>::empty());
}

/// Nothing added to nothing.
pub proof fn lemma_no_more(a: Seq<ActionView>, c: Seq<RouteChange>)
    ensures
        a + Seq::<ActionView>::empty() == a,
        Seq::<ActionView>::empty() + a == a,
        c + Seq::<RouteChange>::empty() == c,
        Seq::<RouteChange>::empty() + c == c,
{
    assert(a + Seq::<ActionView>::empty() =~= a);
    assert(Seq::<ActionView>::empty() + a =~= a);
    assert(c + Seq::<RouteChange>::empty() =~= c);
    assert(Seq::<RouteChange>::empty() + c =~= c);
}

impl Peer {
    pub fn new(
        addr: Ipv4Addr,
        configured: Option<String>,
        conn_local: u16,
        local: Di,
        now: u64,
    ) -> (r: Peer)
        ensures
            r.deep_view() == fresh(addr, configured.deep_view(), conn_local, local, now),
    {
        let r = Peer {
            addr,
            configured,
            di: Di::Ip(addr),
            receiver: Receiver::Unconnected,
            sender: Sender::Unconnected,
            local,
            conn_local,
            seq_recv: 1,
            last_heard: now,
            recv_at: now,
            recv_tries: 0,
            last_reconnect: None,
            conn_remote: 0,
            seq_send: 0,
            outstanding: None,
            pages: Vec::new(),
            pending: Vec::new(),
            last_update: now,
            probing: false,
        };
        assert(pages_view(r.pages@) =~= Seq::empty());
        r
    }

    pub(crate) fn bytes(&self, conn: u16, seq: u16, cmd: Cmd) -> (r: Vec<u8>)
        ensures
            r@ == self.deep_view().packet(conn, seq, cmd.deep_view()),
    {
        let dh = DomainHeader { dst: self.di, src: self.local };
        Aurp::Routing { dh, conn, seq, cmd }.to_bytes()
    }

    pub(crate) fn send(&self, conn: u16, seq: u16, cmd: Cmd) -> (r: Action)
        ensures
            r.deep_view() == self.deep_view().send(conn, seq, cmd.deep_view()),
    {
        Action::ToPeer { peer: self.addr, bytes: self.bytes(conn, seq, cmd) }
    }

    /// Sends transactions, one after the other.
    pub(crate) fn send_all(&self, conn: u16, cmds: Vec<Cmd>, out: &mut Out)
        ensures
            grew(
                *old(out),
                *final(out),
                self.deep_view().sends(conn, cmds.deep_view()),
                Seq::empty(),
            ),
    {
        let ghost all = cmds.deep_view();
        let ghost p = self.deep_view();
        let mut cmds = cmds;
        let ghost mut done: int = 0;
        proof {
            lemma_same(*out);
            assert(p.sends(conn, all.take(0)) =~= Seq::empty());
            assert(all.skip(0) =~= all);
        }
        while cmds.len() > 0
            invariant
                0 <= done <= all.len(),
                p == self.deep_view(),
                cmds.deep_view() == all.skip(done),
                grew(*old(out), *out, p.sends(conn, all.take(done)), Seq::empty()),
            decreases cmds@.len(),
        {
            let ghost mid = *out;
            let ghost before = cmds.deep_view();
            assert(before.len() == cmds@.len());
            assert(before[0] == cmds@[0].deep_view());
            assert(before[0] == all[done]);
            let cmd = cmds.remove(0);
            let ghost c = cmd.deep_view();
            let a = self.send(conn, 0, cmd);
            out.act(a);
            proof {
                assert(c == all[done]);
                lemma_grew(
                    *old(out),
                    mid,
                    *out,
                    p.sends(conn, all.take(done)),
                    Seq::empty(),
                    seq![p.send(conn, 0, c)],
                    Seq::empty(),
                );
                lemma_no_more(Seq::empty(), Seq::empty());
                assert(p.sends(conn, all.take(done)) + seq![p.send(conn, 0, c)]
                    =~= p.sends(conn, all.take(done + 1)));
                assert(cmds.deep_view() =~= all.skip(done).drop_first());
                assert(all.skip(done).drop_first() =~= all.skip(done + 1));
                done = done + 1;
            }
        }
        assert(cmds.deep_view().len() == 0);
        assert(all.take(done) =~= all);
    }

    /// Record a sequenced packet as the one outstanding and send it.
    pub(crate) fn send_sequenced(&mut self, cmd: Cmd, nets: Vec<u16>, now: u64, out: &mut Out)
        ensures
            final(self).deep_view() == old(self).deep_view().sequenced(
                cmd.deep_view(),
                nets@,
                now,
            ),
            grew(
                *old(out),
                *final(out),
                seq![old(self).deep_view().sequenced_act(cmd.deep_view())],
                Seq::empty(),
            ),
    {
        self.seq_send = succ(self.seq_send);
        let bytes = self.bytes(self.conn_remote, self.seq_send, cmd);
        out.act(Action::ToPeer { peer: self.addr, bytes: slice_to_vec(bytes.as_slice()) });
        self.outstanding = Some(
            Outstanding { seq: self.seq_send, bytes, nets, at: now, tries: 1 },
        );
    }

    /// Open our own one-way connection: the receiver side's only fresh packet.
    pub fn open(&mut self, now: u64, out: &mut Out)
        ensures
            final(self).deep_view() == old(self).deep_view().opened(now),
            grew(*old(out), *final(out), seq![old(self).deep_view().open_act()], Seq::empty()),
    {
        self.seq_recv = 1;
        self.receiver = Receiver::WaitOpenRsp;
        self.recv_at = now;
        self.recv_tries = 1;
        self.last_reconnect = Some(now);
        let a = self.open_request();
        out.act(a);
    }

    pub(crate) fn open_request(&self) -> (r: Action)
        ensures
            r.deep_view() == self.deep_view().open_act(),
    {
        let cmd = Cmd::OpenReq { sui: Cmd::ALL_SUI, version: 1, options: Vec::new() };
        assert(cmd.deep_view() == CmdView::OpenReq {
            sui: 0x7800,
            version: 1,
            options: Seq::empty(),
        }) by {
            assert(options_view(Seq::empty()) =~= Seq::empty());
        }
        self.send(self.conn_local, 0, cmd)
    }

    /// Close as data receiver. The next Open-Req must carry a different
    /// connection ID or the peer takes it for a retransmission.
    pub(crate) fn close_receiver(&mut self)
        ensures
            final(self).deep_view() == old(self).deep_view().receiver_closed(),
    {
        self.receiver = Receiver::Unconnected;
        self.conn_local = succ(self.conn_local);
        self.seq_recv = 1;
        self.recv_tries = 0;
    }

    pub(crate) fn close_sender(&mut self)
        ensures
            final(self).deep_view() == old(self).deep_view().sender_closed(),
    {
        self.sender = Sender::Unconnected;
        self.conn_remote = 0;
        self.seq_send = 0;
        self.outstanding = None;
        self.pages = Vec::new();
        self.pending = Vec::new();
        self.probing = false;
        assert(pages_view(self.pages@) =~= Seq::empty());
        assert(self.pending@ =~= Seq::empty());
    }

    pub(crate) fn receiver_open(&self) -> (r: bool)
        ensures
            r == self.deep_view().receives(),
    {
        match self.receiver {
            Receiver::Unconnected => false,
            Receiver::WaitOpenRsp => false,
            _ => true,
        }
    }

    /// Queue one event, collapsing it with whatever is already pending for the
    /// same network.
    pub fn queue(&mut self, ev: EventTuple)
        ensures
            final(self).deep_view() == (PeerView {
                pending: collapsed(old(self).deep_view().pending, ev),
                ..old(self).deep_view()
            }),
    {
        let ghost ps = self.pending@;
        let start = ev.tuple.range.0;
        let mut found: Option<usize> = None;
        assert(ps.take(0) =~= Seq::empty());
        let mut i: usize = 0;
        while i < self.pending.len()
            invariant
                i <= self.pending@.len(),
                ps == self.pending@,
                *self == *old(self),
                match found {
                    Some(k) => k < i && pending_for(ps.take(i as int), start) == Some(k as int),
                    None => pending_for(ps.take(i as int), start) is None,
                },
            decreases self.pending@.len() - i,
        {
            assert(ps.take(i + 1).drop_last() =~= ps.take(i as int));
            assert(ps.take(i + 1).last() == ps[i as int]);
            if found.is_none() && self.pending[i].tuple.range.0 == start {
                found = Some(i);
            }
            i = i + 1;
        }
        assert(ps.take(i as int) =~= ps);
        match found {
            None => self.pending.push(ev),
            Some(k) => {
                let was = self.pending[k].code;
                if was == NA && (ev.code == ND || ev.code == NRC) {
                    // Added then deleted: the peer never heard of it.
                    self.pending.remove(k);
                } else if was == NA && ev.code == NDC {
                    // Still an addition, at the new distance.
                    self.pending.set(k, EventTuple { code: NA, tuple: ev.tuple });
                } else if (was == ND || was == NRC) && ev.code == NA {
                    // Deleted then added back: the peer still has it, so this
                    // is a distance change.
                    self.pending.set(k, EventTuple { code: NDC, tuple: ev.tuple });
                } else {
                    // Everything else, NDC after NDC included: the last wins.
                    self.pending.set(k, ev);
                }
            },
        }
        assert(self.pending@ =~= collapsed(ps, ev));
    }

    /// Where a sequenced packet's number stands against the expected one.
    pub(crate) fn check_seq(&self, seq: u16) -> (r: Seqno)
        ensures
            r == self.deep_view().standing(seq),
    {
        if seq == 0 {
            Seqno::Stale  // 0 is never a sequence number

        } else if seq == self.seq_recv {
            Seqno::New
        } else if seq == pred(self.seq_recv) {
            Seqno::Dup
        } else if seq == succ(self.seq_recv) {
            Seqno::Ahead
        } else {
            Seqno::Stale
        }
    }

    /// Rate 1 and no environment flags: no remapping, no hop-count reduction.
    pub(crate) fn open_rsp(&self, conn: u16, rate_or_err: i16) -> (r: Action)
        ensures
            r.deep_view() == self.deep_view().open_rsp(conn, rate_or_err),
    {
        let cmd = Cmd::OpenRsp { env: 0, rate_or_err, options: Vec::new() };
        assert(options_view(Seq::empty()) =~= Seq::empty());
        self.send(conn, 0, cmd)
    }

    pub(crate) fn ack(&self, conn: u16, seq: u16, szi: bool) -> (r: Action)
        ensures
            r.deep_view() == self.deep_view().send(conn, seq, CmdView::RiAck { szi }),
    {
        self.send(conn, seq, Cmd::RiAck { szi })
    }
}

/// A peer nothing has passed between yet.
pub open spec fn fresh(
    addr: Ipv4Addr,
    configured: Option<Seq<char>>,
    conn_local: u16,
    local: Di,
    now: u64,
) -> PeerView {
    PeerView {
        addr,
        configured,
        di: Di::Ip(addr),
        receiver: Receiver::Unconnected,
        sender: Sender::Unconnected,
        local,
        conn_local,
        seq_recv: 1,
        last_heard: now,
        recv_at: now,
        recv_tries: 0,
        last_reconnect: None,
        conn_remote: 0,
        seq_send: 0,
        outstanding: None,
        pages: Seq::empty(),
        pending: Seq::empty(),
        last_update: now,
        probing: false,
    }
}

} // verus!
