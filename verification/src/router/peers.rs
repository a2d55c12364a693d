//! Every AURP peer: who may speak to us, what their datagrams and the clock
//! bring about, and which route changes they are told of.

use std::collections::HashMap;

use vstd::prelude::*;
use vstd::slice::*;
use vstd::string::*;

use crate::fmt;
use crate::names::clone_names;
use crate::router::aurp::{called, collapsed, elapsed, fresh, grew, lemma_grew, lemma_no_more, lemma_same, named_by, seed_conn, since, succ, succ_of, tuple_of, Out, Peer, PeerView, Receiver, Sender, Step, LAST_HEARD, NA, ND, NDC, NRC};
use crate::router::table::{starts_in, Route, RouteChange, Tables, TablesView, FAR};
use crate::router::{Action, ActionView, Target};
use crate::wire::aurp::{AurpView, Di, DomainHeader, EventTuple};
use crate::wire::ddp::DdpView;
use crate::wire::{Aurp, Ddp, Encode, Ipv4Addr, NetworkTuple};

verus! {

/// How often configured peers without a connection are looked at.
pub const RECONNECT_SCAN: u64 = 10000;

/// How often networks without zones are asked about again.
pub const ZI_REREQUEST: u64 = 30000;

/// How often one unknown address is worth a line in the log.
pub const LOG_EVERY: u64 = 60000;

/// How many peers open peering holds that were never configured: the tunnel's
/// port faces the internet, and a stranger's packet must not buy permanent
/// memory.
pub const MAX_STRANGERS: usize = 256;

/// The peers, as data.
pub struct PeersView {
    pub local: Di,
    pub open_peering: bool,
    pub peers: Seq<PeerView>,
    pub configured: Seq<Seq<char>>,
    pub next_conn: u16,
    pub last_scan: u64,
    pub last_zi: u64,
    /// When the log last named each unknown address.
    pub logged: Map<u32, u64>,
}

/// What handling something leaves behind.
pub struct Outcome {
    pub peers: PeersView,
    pub tables: TablesView,
    pub acts: Seq<ActionView>,
    pub chs: Seq<RouteChange>,
    pub ddp: Option<Seq<u8>>,
}

/// One pass of the clock over the peers.
pub struct Round {
    pub peers: Seq<PeerView>,
    pub tables: TablesView,
    pub acts: Seq<ActionView>,
    pub chs: Seq<RouteChange>,
}

/// Where the first peer at an address stands, or -1.
pub open spec fn find(ps: Seq<PeerView>, a: Ipv4Addr) -> int
    decreases ps.len(),
{
    if ps.len() == 0 {
        -1
    } else {
        let i = find(ps.drop_last(), a);
        if i >= 0 {
            i
        } else if ps.last().addr == a {
            ps.len() - 1
        } else {
            -1
        }
    }
}

/// How many peers stand before an address.
pub open spec fn slot(ps: Seq<PeerView>, a: Ipv4Addr) -> nat
    decreases ps.len(),
{
    if ps.len() == 0 {
        0
    } else if ps.last().addr.key() < a.key() {
        slot(ps.drop_last(), a) + 1
    } else {
        slot(ps.drop_last(), a)
    }
}

/// The peers but those resolved from a name.
pub open spec fn unnamed(ps: Seq<PeerView>, name: Seq<char>) -> Seq<PeerView>
    decreases ps.len(),
{
    if ps.len() == 0 {
        Seq::empty()
    } else if ps.last().configured == Some(name) {
        unnamed(ps.drop_last(), name)
    } else {
        unnamed(ps.drop_last(), name).push(ps.last())
    }
}

/// How many peers nobody configured.
pub open spec fn strangers(ps: Seq<PeerView>) -> nat
    decreases ps.len(),
{
    if ps.len() == 0 {
        0
    } else if ps.last().configured is None {
        strangers(ps.drop_last()) + 1
    } else {
        strangers(ps.drop_last())
    }
}

/// Peers are kept by address, one at each.
pub open spec fn ordered(ps: Seq<PeerView>) -> bool {
    forall|i: int, j: int|
        0 <= i < j < ps.len() ==> (#[trigger] ps[i]).addr.key() < (#[trigger] ps[j]).addr.key()
}

/// A datagram that has crossed as many routers as it may.
pub open spec fn expired(ddp: Seq<u8>) -> bool {
    DdpView::parse(ddp) matches Some(d) && d.hops >= FAR
}

impl Step {
    /// One step after the other.
    pub open spec fn and(self, next: Step) -> Step {
        Step {
            peer: next.peer,
            tables: next.tables,
            acts: self.acts + next.acts,
            chs: self.chs + next.chs,
        }
    }
}

impl PeerView {
    /// What the clock does to a peer. `scan` and `zi` say whether it is time
    /// to look for connections to open and for zones to ask about.
    pub open spec fn ticked(self, tables: TablesView, scan: bool, zi: bool, now: u64) -> Step {
        let a = if scan {
            self.reconnected(tables, now)
        } else {
            self.quiet(tables)
        };
        let b = a.and(a.peer.receiver_ticked(a.tables, now));
        let c = b.and(b.peer.sender_ticked(b.tables, now));
        if zi {
            c.and(c.peer.zi_asked(c.tables))
        } else {
            c
        }
    }

    /// A stranger that is gone for good.
    pub open spec fn idle(self, now: u64) -> bool {
        &&& self.configured is None
        &&& self.receiver == Receiver::Unconnected
        &&& self.sender == Sender::Unconnected
        &&& since(now, self.last_heard) >= LAST_HEARD
    }

    /// What a peer is told of a route change: nothing while we do not serve it,
    /// for everything goes out in an RI-Rsp when it connects.
    pub open spec fn told(self, ev: EventTuple) -> PeerView {
        if self.sender == Sender::Unconnected {
            self
        } else {
            PeerView { pending: collapsed(self.pending, ev), ..self }
        }
    }
}

pub open spec fn round(
    ps: Seq<PeerView>,
    tables: TablesView,
    scan: bool,
    zi: bool,
    now: u64,
) -> Round
    decreases ps.len(),
{
    if ps.len() == 0 {
        Round { peers: Seq::empty(), tables, acts: Seq::empty(), chs: Seq::empty() }
    } else {
        let r = round(ps.drop_last(), tables, scan, zi, now);
        let s = ps.last().ticked(r.tables, scan, zi, now);
        Round {
            peers: r.peers.push(s.peer),
            tables: s.tables,
            acts: r.acts + s.acts,
            chs: r.chs + s.chs,
        }
    }
}

/// The peers that stay. One that nobody configured, with neither connection up,
/// is dropped once it has been quiet for `LAST_HEARD`, and the routes it left
/// behind with it.
pub open spec fn swept(ps: Seq<PeerView>, tables: TablesView, now: u64) -> Round
    decreases ps.len(),
{
    if ps.len() == 0 {
        Round { peers: Seq::empty(), tables, acts: Seq::empty(), chs: Seq::empty() }
    } else {
        let r = swept(ps.drop_last(), tables, now);
        let p = ps.last();
        if p.idle(now) {
            let t = Target::Peer(p.addr);
            let n = r.tables.remove_target(t);
            Round {
                tables: n,
                chs: r.chs + r.tables.changes(n, starts_in(r.tables.routes, Some(t))),
                ..r
            }
        } else {
            Round { peers: r.peers.push(p), ..r }
        }
    }
}

// -------------------------------------------------------------- route events

/// A route we may export: out one of our own ports, and not too far. Split
/// horizon keeps the others to the peers behind them.
pub open spec fn local_route(r: Option<Route>) -> bool {
    r is Some && r->0.target is Port && r->0.distance < FAR
}

/// The event a route change is worth to our peers.
pub open spec fn event_for(c: RouteChange, tables: TablesView) -> Option<EventTuple> {
    let was = local_route(c.old);
    let will = local_route(c.new) && tables.zoned(c.new->0.range.0);
    if !was && !will {
        None
    } else if !was {
        Some(EventTuple { code: NA, tuple: c.new->0.as_tuple() })
    } else if !will {
        // Moved onto a tunnel: split horizon hides it, which is NRC rather
        // than a plain deletion.
        Some(
            EventTuple {
                code: if c.new is Some && c.new->0.target is Peer {
                    NRC
                } else {
                    ND
                },
                tuple: NetworkTuple {
                    range: c.old->0.range,
                    extended: c.old->0.extended,
                    distance: 0,
                },
            },
        )
    } else if c.old->0.distance == c.new->0.distance {
        None
    } else {
        Some(EventTuple { code: NDC, tuple: c.new->0.as_tuple() })
    }
}

/// Every peer told of an event.
pub open spec fn told_all(ps: Seq<PeerView>, ev: Option<EventTuple>) -> Seq<PeerView> {
    match ev {
        Some(e) => Seq::new(ps.len(), |i: int| ps[i].told(e)),
        None => ps,
    }
}

/// Every peer told of route changes, in order.
pub open spec fn informed(
    ps: Seq<PeerView>,
    ch: Seq<RouteChange>,
    tables: TablesView,
) -> Seq<PeerView>
    decreases ch.len(),
{
    if ch.len() == 0 {
        ps
    } else {
        told_all(informed(ps, ch.drop_last(), tables), event_for(ch.last(), tables))
    }
}

// ------------------------------------------------------------------- the end

pub open spec fn all_shut(ps: Seq<PeerView>, now: u64) -> Seq<PeerView> {
    Seq::new(ps.len(), |i: int| ps[i].shut(now))
}

pub open spec fn all_shut_acts(ps: Seq<PeerView>) -> Seq<ActionView>
    decreases ps.len(),
{
    if ps.len() == 0 {
        Seq::empty()
    } else {
        all_shut_acts(ps.drop_last()) + ps.last().shut_acts()
    }
}

// ------------------------------------------------------------------ the dump

/// Whether a configured name has been resolved.
pub open spec fn is_named(ps: Seq<PeerView>, name: Seq<char>) -> bool {
    exists|i: int| 0 <= i < ps.len() && (#[trigger] ps[i]).configured == Some(name)
}

pub open spec fn unresolved_text(names: Seq<Seq<char>>, ps: Seq<PeerView>) -> Seq<char>
    decreases names.len(),
{
    if names.len() == 0 {
        Seq::empty()
    } else {
        let t = unresolved_text(names.drop_last(), ps);
        if is_named(ps, names.last()) {
            t
        } else {
            t + fmt::pad_right(names.last(), 20) + "  unresolved\n"@
        }
    }
}

impl PeerView {
    /// Who the peer is.
    pub open spec fn who(self) -> Seq<char> {
        fmt::pad_right(
            match self.configured {
                Some(n) => n,
                None => "-"@,
            },
            20,
        ) + "  "@ + fmt::pad_right(self.addr.text(), 15)
    }

    /// The connection we opened.
    pub open spec fn inward(self) -> Seq<char> {
        "  recv "@ + fmt::pad_right(self.receiver.text(), 15) + " conn "@ + fmt::pad_left(
            fmt::dec(self.conn_local as nat),
            5,
        ) + " next seq "@ + fmt::pad_left(fmt::dec(self.seq_recv as nat), 5)
    }

    /// The connection the peer opened.
    pub open spec fn outward(self) -> Seq<char> {
        "  send "@ + fmt::pad_right(self.sender.text(), 15) + " conn "@ + fmt::pad_left(
            fmt::dec(self.conn_remote as nat),
            5,
        ) + " seq "@ + fmt::pad_left(fmt::dec(self.seq_send as nat), 5)
    }

    pub open spec fn line(self, now: u64) -> Seq<char> {
        self.who() + self.inward() + self.outward() + "  "@ + fmt::dec(self.pending.len())
            + " pending  heard "@ + fmt::dec((since(now, self.last_heard) / 1000) as nat)
            + "s ago\n"@
    }
}

pub open spec fn peer_lines(ps: Seq<PeerView>, now: u64) -> Seq<char>
    decreases ps.len(),
{
    if ps.len() == 0 {
        Seq::empty()
    } else {
        peer_lines(ps.drop_last(), now) + ps.last().line(now)
    }
}

// ------------------------------------------------------------------ the peers

impl PeersView {
    /// A peer of its own for an address.
    pub open spec fn joined(self, name: Option<Seq<char>>, a: Ipv4Addr, now: u64) -> PeersView {
        PeersView {
            peers: self.peers.insert(
                slot(self.peers, a) as int,
                fresh(a, name, self.next_conn, self.local, now),
            ),
            next_conn: succ_of(self.next_conn),
            ..self
        }
    }

    pub open spec fn with_peer(self, i: int, p: PeerView) -> PeersView {
        PeersView { peers: self.peers.update(i, p), ..self }
    }

    /// A configured name that resolved, or resolved again. When it has moved,
    /// the old address can no longer be this peer.
    pub open spec fn resolved(self, name: Seq<char>, a: Ipv4Addr, now: u64) -> PeersView {
        let i = find(self.peers, a);
        if i >= 0 {
            self.with_peer(i, PeerView { configured: Some(name), ..self.peers[i] })
        } else {
            (PeersView { peers: unnamed(self.peers, name), ..self }).joined(Some(name), a, now)
        }
    }

    pub open spec fn nothing(self, tables: TablesView) -> Outcome {
        Outcome { peers: self, tables, acts: Seq::empty(), chs: Seq::empty(), ddp: None }
    }

    /// Whether the log should name an unknown address now.
    pub open spec fn worth_a_line(self, a: Ipv4Addr, now: u64) -> bool {
        let k = a.key() as u32;
        !self.logged.contains_key(k) || since(now, self.logged[k]) >= LOG_EVERY
    }

    /// A datagram of a stranger who may not speak to us.
    pub open spec fn refused(self, from: Ipv4Addr, tables: TablesView, now: u64) -> Outcome {
        if self.worth_a_line(from, now) {
            Outcome {
                peers: PeersView {
                    logged: self.logged.insert(from.key() as u32, now),
                    ..self
                },
                tables,
                acts: seq![ActionView::Log("aurp: packet from unknown peer "@ + from.text())],
                chs: Seq::empty(),
                ddp: None,
            }
        } else {
            self.nothing(tables)
        }
    }

    /// A packet of a peer that is known. A datagram comes back to be forwarded,
    /// unless it has expired; only the name the peer goes by is noted of it.
    pub open spec fn handled(
        self,
        i: int,
        pkt: AurpView,
        tables: TablesView,
        now: u64,
    ) -> Outcome {
        let p = self.peers[i];
        match pkt {
            AurpView::Data { dh, ddp } => Outcome {
                peers: self.with_peer(i, PeerView { di: called(dh.src, p.addr), ..p }),
                tables,
                acts: Seq::empty(),
                chs: Seq::empty(),
                ddp: if expired(ddp) {
                    None
                } else {
                    Some(ddp)
                },
            },
            AurpView::Routing { dh, conn, seq, cmd } => {
                let s = (PeerView { di: called(dh.src, p.addr), ..p }).routing(
                    conn,
                    seq,
                    cmd,
                    tables,
                    now,
                );
                Outcome {
                    peers: self.with_peer(i, s.peer),
                    tables: s.tables,
                    acts: s.acts,
                    chs: s.chs,
                    ddp: None,
                }
            },
        }
    }

    /// One datagram from the tunnel.
    pub open spec fn packet(
        self,
        from: Ipv4Addr,
        bytes: Seq<u8>,
        tables: TablesView,
        now: u64,
    ) -> Outcome {
        let i = find(self.peers, from);
        match AurpView::parse(bytes) {
            None => self.nothing(tables),
            Some(pkt) => if i >= 0 {
                self.handled(i, pkt, tables, now)
            } else if !self.open_peering || strangers(self.peers) >= MAX_STRANGERS {
                self.refused(from, tables, now)
            } else {
                self.joined(None, from, now).handled(
                    slot(self.peers, from) as int,
                    pkt,
                    tables,
                    now,
                )
            },
        }
    }

    /// The clock.
    pub open spec fn ticked(self, tables: TablesView, now: u64) -> Outcome {
        let scan = since(now, self.last_scan) >= RECONNECT_SCAN;
        let zi = since(now, self.last_zi) >= ZI_REREQUEST;
        let r = round(self.peers, tables, scan, zi, now);
        let s = swept(r.peers, r.tables, now);
        Outcome {
            peers: PeersView {
                peers: s.peers,
                last_scan: if scan {
                    now
                } else {
                    self.last_scan
                },
                last_zi: if zi {
                    now
                } else {
                    self.last_zi
                },
                ..self
            },
            tables: s.tables,
            acts: r.acts,
            chs: r.chs + s.chs,
            ddp: None,
        }
    }

    /// A datagram wrapped for a peer, which is addressed by the name it goes by.
    pub open spec fn wrapped(self, a: Ipv4Addr, ddp: Seq<u8>) -> ActionView {
        let i = find(self.peers, a);
        let dst = if i >= 0 {
            self.peers[i].di
        } else {
            Di::Ip(a)
        };
        ActionView::ToPeer {
            peer: a,
            bytes: (AurpView::Data { dh: DomainHeader { dst, src: self.local }, ddp }).bytes(),
        }
    }
}

/// Where the first peer at an address stands.
pub proof fn lemma_find(ps: Seq<PeerView>, a: Ipv4Addr)
    ensures
        -1 <= find(ps, a) < ps.len(),
        find(ps, a) >= 0 ==> ps[find(ps, a)].addr == a,
        forall|j: int|
            0 <= j < ps.len() && (find(ps, a) < 0 || j < find(ps, a)) ==> (
            #[trigger] ps[j]).addr != a,
    decreases ps.len(),
{
    if ps.len() > 0 {
        lemma_find(ps.drop_last(), a);
        assert forall|j: int|
            0 <= j < ps.len() && (find(ps, a) < 0 || j < find(ps, a)) implies (
        #[trigger] ps[j]).addr != a by {
            if j < ps.len() - 1 {
                assert(ps.drop_last()[j] == ps[j]);
            }
        }
    }
}

pub proof fn lemma_slot(ps: Seq<PeerView>, a: Ipv4Addr)
    ensures
        slot(ps, a) <= ps.len(),
    decreases ps.len(),
{
    if ps.len() > 0 {
        lemma_slot(ps.drop_last(), a);
    }
}

// ----------------------------------------------------------------- execution

pub struct Peers {
    pub local: Di,
    pub open_peering: bool,
    /// Ordered by address, so every listing and every dump is deterministic.
    pub peers: Vec<Peer>,
    /// Configured names, whether or not they have resolved yet.
    pub configured: Vec<String>,
    /// The connection ID the next peer starts from.
    pub next_conn: u16,
    pub last_scan: u64,
    pub last_zi: u64,
    /// When the log last named each unknown address.
    pub logged: HashMap<u32, u64>,
}

impl DeepView for Peers {
    type V = PeersView;

    open spec fn deep_view(&self) -> PeersView {
        PeersView {
            local: self.local,
            open_peering: self.open_peering,
            peers: self.peers.deep_view(),
            configured: self.configured.deep_view(),
            next_conn: self.next_conn,
            last_scan: self.last_scan,
            last_zi: self.last_zi,
            logged: self.logged@,
        }
    }
}

impl Peers {
    /// No peers yet. `nanos` seeds the connection IDs: the first must differ
    /// from the last one used before a restart, which nothing remembers.
    pub fn new(
        local: Di,
        open_peering: bool,
        configured: &[String],
        nanos: u32,
        now: u64,
    ) -> (r: Peers)
        ensures
            r.deep_view() == (PeersView {
                local,
                open_peering,
                peers: Seq::empty(),
                configured: configured.deep_view(),
                next_conn: succ_of((nanos % 65536) as u16),
                last_scan: now,
                last_zi: now,
                logged: Map::empty(),
            }),
    {
        let r = Peers {
            local,
            open_peering,
            peers: Vec::new(),
            configured: clone_names(configured),
            next_conn: seed_conn(nanos),
            last_scan: now,
            last_zi: now,
            logged: HashMap::new(),
        };
        assert(r.peers.deep_view() =~= Seq::empty());
        r
    }

    /// Where the peer at an address stands.
    fn find(&self, a: Ipv4Addr) -> (r: Option<usize>)
        ensures
            match r {
                Some(i) => i < self.peers@.len() && find(self.deep_view().peers, a) == i,
                None => find(self.deep_view().peers, a) == -1,
            },
    {
        let ghost ps = self.deep_view().peers;
        assert(ps.take(0) =~= Seq::empty());
        let mut i: usize = 0;
        while i < self.peers.len()
            invariant
                i <= self.peers@.len(),
                ps == self.deep_view().peers,
                ps.len() == self.peers@.len(),
                find(ps.take(i as int), a) == -1,
            decreases self.peers@.len() - i,
        {
            assert(ps.take(i + 1).drop_last() =~= ps.take(i as int));
            assert(ps.take(i + 1).last() == self.peers@[i as int].deep_view());
            if self.peers[i].addr == a {
                proof {
                    lemma_find_from(ps, a, i + 1);
                }
                return Some(i);
            }
            i = i + 1;
        }
        assert(ps.take(i as int) =~= ps);
        None
    }

    /// How many peers nobody configured.
    fn stranger_count(&self) -> (r: usize)
        ensures
            r == strangers(self.deep_view().peers),
    {
        let ghost ps = self.deep_view().peers;
        let mut n: usize = 0;
        assert(ps.take(0) =~= Seq::empty());
        let mut i: usize = 0;
        while i < self.peers.len()
            invariant
                n <= i <= self.peers@.len(),
                ps == self.deep_view().peers,
                ps.len() == self.peers@.len(),
                n == strangers(ps.take(i as int)),
            decreases self.peers@.len() - i,
        {
            assert(ps.take(i + 1).drop_last() =~= ps.take(i as int));
            assert(ps.take(i + 1).last() == self.peers@[i as int].deep_view());
            if self.peers[i].configured.is_none() {
                n = n + 1;
            }
            i = i + 1;
        }
        assert(ps.take(i as int) =~= ps);
        n
    }

    /// Drops the strangers that are gone for good.
    fn sweep(&mut self, tables: &mut Tables, now: u64, out: &mut Out)
        ensures
            ({
                let s = swept(old(self).deep_view().peers, old(tables).deep_view(), now);
                &&& final(self).deep_view() == (PeersView {
                    peers: s.peers,
                    ..old(self).deep_view()
                })
                &&& final(tables).deep_view() == s.tables
                &&& grew(*old(out), *final(out), Seq::empty(), s.chs)
            }),
    {
        let ghost all = self.deep_view().peers;
        let ghost tv = tables.deep_view();
        let mut left: Vec<Peer> = Vec::new();
        left.append(&mut self.peers);
        let mut kept: Vec<Peer> = Vec::new();
        let ghost mut done: int = 0;
        proof {
            lemma_same(*out);
        }
        assert(all.take(0) =~= Seq::empty());
        assert(left.deep_view() =~= all.skip(0));
        assert(kept.deep_view() =~= Seq::empty());
        while left.len() > 0
            invariant
                0 <= done <= all.len(),
                left.deep_view() == all.skip(done),
                kept.deep_view() == swept(all.take(done), tv, now).peers,
                tables.deep_view() == swept(all.take(done), tv, now).tables,
                grew(*old(out), *out, Seq::empty(), swept(all.take(done), tv, now).chs),
            decreases left@.len(),
        {
            let ghost before = left.deep_view();
            assert(before.len() == left@.len());
            assert(before[0] == left@[0].deep_view());
            let p = left.remove(0);
            let ghost s = swept(all.take(done), tv, now);
            proof {
                assert(left.deep_view() =~= all.skip(done).drop_first());
                assert(all.skip(done).drop_first() =~= all.skip(done + 1));
                assert(all.take(done + 1).drop_last() =~= all.take(done));
                assert(all.take(done + 1).last() == p.deep_view());
                done = done + 1;
            }
            if p.configured.is_none() && p.receiver == Receiver::Unconnected && p.sender
                == Sender::Unconnected && elapsed(now, p.last_heard) >= LAST_HEARD {
                let ghost mid = *out;
                let ch = tables.remove_target(Target::Peer(p.addr));
                let ghost more = ch@;
                out.changed(ch);
                proof {
                    lemma_grew(*old(out), mid, *out, Seq::empty(), s.chs, Seq::empty(), more);
                    lemma_no_more(Seq::empty(), s.chs);
                }
            } else {
                let ghost kv = kept.deep_view();
                let ghost pv = p.deep_view();
                kept.push(p);
                assert(kept.deep_view() =~= kv.push(pv));
            }
        }
        assert(left.deep_view().len() == 0);
        assert(all.take(done) =~= all);
        self.peers = kept;
    }

    fn take_conn(&mut self) -> (r: u16)
        ensures
            r == old(self).next_conn,
            final(self).deep_view() == (PeersView {
                next_conn: succ_of(old(self).next_conn),
                ..old(self).deep_view()
            }),
    {
        let c = self.next_conn;
        self.next_conn = succ(self.next_conn);
        c
    }

    /// Gives an address a peer of its own, and says where it stands.
    fn join(&mut self, name: Option<String>, a: Ipv4Addr, now: u64) -> (r: usize)
        ensures
            r == slot(old(self).deep_view().peers, a),
            r < final(self).peers@.len(),
            final(self).deep_view() == old(self).deep_view().joined(name.deep_view(), a, now),
    {
        let ghost ps = self.deep_view().peers;
        let key = a.number();
        let mut at: usize = 0;
        let mut i: usize = 0;
        assert(ps.take(0) =~= Seq::empty());
        while i < self.peers.len()
            invariant
                at <= i <= self.peers@.len(),
                ps == self.deep_view().peers,
                ps.len() == self.peers@.len(),
                key == a.key(),
                at == slot(ps.take(i as int), a),
            decreases self.peers@.len() - i,
        {
            assert(ps.take(i + 1).drop_last() =~= ps.take(i as int));
            assert(ps.take(i + 1).last() == self.peers@[i as int].deep_view());
            if self.peers[i].addr.number() < key {
                at = at + 1;
            }
            i = i + 1;
        }
        assert(ps.take(i as int) =~= ps);
        let conn = self.take_conn();
        let p = Peer::new(a, name, conn, self.local, now);
        let ghost pv = p.deep_view();
        self.peers.insert(at, p);
        assert(self.peers.deep_view() =~= ps.insert(at as int, pv));
        at
    }

    /// Drops the peers resolved from a name.
    fn forget(&mut self, name: &String)
        ensures
            final(self).deep_view() == (PeersView {
                peers: unnamed(old(self).deep_view().peers, name@),
                ..old(self).deep_view()
            }),
    {
        let ghost all = self.deep_view().peers;
        let ghost v = self.deep_view();
        let mut left: Vec<Peer> = Vec::new();
        left.append(&mut self.peers);
        let mut kept: Vec<Peer> = Vec::new();
        let ghost mut done: int = 0;
        assert(all.take(0) =~= Seq::empty());
        assert(left.deep_view() =~= all.skip(0));
        assert(kept.deep_view() =~= Seq::empty());
        while left.len() > 0
            invariant
                0 <= done <= all.len(),
                left.deep_view() == all.skip(done),
                kept.deep_view() == unnamed(all.take(done), name@),
            decreases left@.len(),
        {
            let ghost before = left.deep_view();
            assert(before.len() == left@.len());
            assert(before[0] == left@[0].deep_view());
            let p = left.remove(0);
            proof {
                assert(left.deep_view() =~= all.skip(done).drop_first());
                assert(all.skip(done).drop_first() =~= all.skip(done + 1));
                assert(all.take(done + 1).drop_last() =~= all.take(done));
                assert(all.take(done + 1).last() == p.deep_view());
                done = done + 1;
            }
            let gone = match &p.configured {
                Some(n) => *n == *name,
                None => false,
            };
            if !gone {
                let ghost kv = kept.deep_view();
                let ghost pv = p.deep_view();
                kept.push(p);
                assert(kept.deep_view() =~= kv.push(pv));
            }
        }
        assert(left.deep_view().len() == 0);
        assert(all.take(done) =~= all);
        self.peers = kept;
    }

    /// A configured name resolved, or resolved again.
    pub fn resolved(&mut self, name: &str, addr: Ipv4Addr, now: u64)
        ensures
            final(self).deep_view() == old(self).deep_view().resolved(name@, addr, now),
    {
        let ghost v = self.deep_view();
        let name = fmt::text(name);
        match self.find(addr) {
            Some(i) => {
                let ghost nv = name@;
                self.peers[i].configured = Some(name);
                assert(self.peers.deep_view() =~= v.peers.update(
                    i as int,
                    PeerView { configured: Some(nv), ..v.peers[i as int] },
                ));
            },
            None => {
                // The name moved: the old address cannot still be this peer.
                self.forget(&name);
                self.join(Some(name), addr, now);
            },
        }
    }

    /// True if the unknown-peer log should name this address now.
    fn log_unknown(&mut self, from: Ipv4Addr, now: u64) -> (r: bool)
        ensures
            r == old(self).deep_view().worth_a_line(from, now),
            final(self).deep_view() == (if r {
                PeersView {
                    logged: old(self).deep_view().logged.insert(from.key() as u32, now),
                    ..old(self).deep_view()
                }
            } else {
                old(self).deep_view()
            }),
    {
        let key = from.number();
        if let Some(t) = self.logged.get(&key) {
            if elapsed(now, *t) < LOG_EVERY {
                return false;
            }
        }
        self.logged.insert(key, now);
        true
    }

    /// One packet of the peer standing at an index.
    fn handle(
        &mut self,
        i: usize,
        pkt: Aurp,
        tables: &mut Tables,
        now: u64,
        out: &mut Out,
    ) -> (r: Option<Vec<u8>>)
        requires
            i < old(self).peers@.len(),
        ensures
            ({
                let o = old(self).deep_view().handled(
                    i as int,
                    pkt.deep_view(),
                    old(tables).deep_view(),
                    now,
                );
                &&& final(self).deep_view() == o.peers
                &&& final(tables).deep_view() == o.tables
                &&& grew(*old(out), *final(out), o.acts, o.chs)
                &&& r.deep_view() == o.ddp
            }),
    {
        let ghost v = self.deep_view();
        proof {
            lemma_same(*out);
        }
        let from = self.peers[i].addr;
        match pkt {
            Aurp::Data { dh, ddp } => {
                self.peers[i].di = named_by(dh.src, from);
                assert(self.peers.deep_view() =~= v.peers.update(
                    i as int,
                    PeerView { di: called(dh.src, from), ..v.peers[i as int] },
                ));
                match Ddp::parse(ddp.as_slice()) {
                    Some(d) => if d.hops >= FAR {
                        None
                    } else {
                        Some(ddp)
                    },
                    None => Some(ddp),
                }
            },
            Aurp::Routing { dh, conn, seq, cmd } => {
                let ghost cv = cmd.deep_view();
                let ghost tv = tables.deep_view();
                self.peers[i].di = named_by(dh.src, from);
                self.peers[i].routing(conn, seq, cmd, tables, now, out);
                proof {
                    let p = PeerView { di: called(dh.src, from), ..v.peers[i as int] };
                    assert(self.peers.deep_view() =~= v.peers.update(
                        i as int,
                        p.routing(conn, seq, cv, tv, now).peer,
                    ));
                }
                None
            },
        }
    }

    /// One datagram from the tunnel. A `Data` packet's DDP bytes come back to
    /// be forwarded.
    pub fn packet(&mut self, from: Ipv4Addr, bytes: &[u8], tables: &mut Tables, now: u64) -> (r: (
        Vec<Action>,
        Vec<RouteChange>,
        Option<Vec<u8>>,
    ))
        ensures
            ({
                let o = old(self).deep_view().packet(
                    from,
                    bytes@,
                    old(tables).deep_view(),
                    now,
                );
                &&& final(self).deep_view() == o.peers
                &&& final(tables).deep_view() == o.tables
                &&& r.0.deep_view() == o.acts
                &&& r.1@ == o.chs
                &&& r.2.deep_view() == o.ddp
            }),
    {
        let ghost v = self.deep_view();
        let mut out = Out::new();
        let ghost start = out;
        let pkt = match Aurp::parse(bytes) {
            Some(p) => p,
            None => {
                return (out.acts, out.chs, None);
            },
        };
        let i = match self.find(from) {
            Some(i) => i,
            None => {
                if !self.open_peering || self.stranger_count() >= MAX_STRANGERS {
                    if self.log_unknown(from, now) {
                        let mut line = fmt::text("aurp: packet from unknown peer ");
                        from.write(&mut line);
                        out.act(Action::Log(line));
                        assert(out.acts.deep_view() =~= seq![
                            ActionView::Log("aurp: packet from unknown peer "@ + from.text()),
                        ]);
                        assert(out.chs@ =~= Seq::empty());
                    }
                    return (out.acts, out.chs, None);
                }
                self.join(None, from, now)
            },
        };
        let ghost mid = self.deep_view();
        let ghost tv = tables.deep_view();
        let ghost pv = pkt.deep_view();
        let ddp = self.handle(i, pkt, tables, now, &mut out);
        proof {
            let o = mid.handled(i as int, pv, tv, now);
            assert(out.acts.deep_view() =~= o.acts);
            assert(out.chs@ =~= o.chs);
        }
        (out.acts, out.chs, ddp)
    }

    /// Everything the clock does to the peer standing at an index.
    fn tick_one(
        &mut self,
        i: usize,
        scan: bool,
        zi: bool,
        tables: &mut Tables,
        now: u64,
        out: &mut Out,
    )
        requires
            i < old(self).peers@.len(),
        ensures
            ({
                let s = old(self).deep_view().peers[i as int].ticked(
                    old(tables).deep_view(),
                    scan,
                    zi,
                    now,
                );
                &&& final(self).deep_view() == old(self).deep_view().with_peer(i as int, s.peer)
                &&& final(tables).deep_view() == s.tables
                &&& grew(*old(out), *final(out), s.acts, s.chs)
            }),
    {
        let ghost v = self.deep_view();
        let ghost p = self.peers@[i as int].deep_view();
        let ghost tv = tables.deep_view();
        let ghost a = if scan {
            p.reconnected(tv, now)
        } else {
            p.quiet(tv)
        };
        let ghost b = a.and(a.peer.receiver_ticked(a.tables, now));
        let ghost c = b.and(b.peer.sender_ticked(b.tables, now));
        proof {
            lemma_same(*out);
        }
        if scan {
            self.peers[i].reconnect(now, out, Ghost(tv));
        }
        assert(self.peers@[i as int].deep_view() == a.peer);
        let ghost o1 = *out;
        self.peers[i].receiver_timers(tables, now, out);
        proof {
            let s = a.peer.receiver_ticked(a.tables, now);
            lemma_grew(*old(out), o1, *out, a.acts, a.chs, s.acts, s.chs);
        }
        let ghost o2 = *out;
        let ghost bt = tables.deep_view();
        self.peers[i].sender_timers(now, out, Ghost(bt));
        proof {
            let s = b.peer.sender_ticked(b.tables, now);
            lemma_grew(*old(out), o2, *out, b.acts, b.chs, s.acts, s.chs);
        }
        let ghost o3 = *out;
        assert(bt == c.tables);
        if zi {
            self.peers[i].zi_rerequest(tables, out);
            proof {
                let s = c.peer.zi_asked(c.tables);
                lemma_grew(*old(out), o3, *out, c.acts, c.chs, s.acts, s.chs);
            }
        }
        assert(self.peers.deep_view() =~= v.peers.update(
            i as int,
            p.ticked(tv, scan, zi, now).peer,
        ));
    }

    /// Timers: retransmits, tickles, reconnects, pending RI-Upds, ZI
    /// re-requests, and the end of strangers that went away.
    pub fn tick(&mut self, tables: &mut Tables, now: u64) -> (r: (Vec<Action>, Vec<RouteChange>))
        ensures
            ({
                let o = old(self).deep_view().ticked(old(tables).deep_view(), now);
                &&& final(self).deep_view() == o.peers
                &&& final(tables).deep_view() == o.tables
                &&& r.0.deep_view() == o.acts
                &&& r.1@ == o.chs
            }),
    {
        let mut out = Out::new();
        let scan = elapsed(now, self.last_scan) >= RECONNECT_SCAN;
        if scan {
            self.last_scan = now;
        }
        let zi = elapsed(now, self.last_zi) >= ZI_REREQUEST;
        if zi {
            self.last_zi = now;
        }
        let ghost v = self.deep_view();
        let ghost ps = v.peers;
        let ghost tv = tables.deep_view();
        assert(ps.take(0) =~= Seq::empty());
        assert(ps =~= round(ps.take(0), tv, scan, zi, now).peers + ps.skip(0));
        let mut i: usize = 0;
        while i < self.peers.len()
            invariant
                i <= self.peers@.len(),
                self.peers@.len() == ps.len(),
                self.deep_view() == (PeersView {
                    peers: round(ps.take(i as int), tv, scan, zi, now).peers + ps.skip(i as int),
                    ..v
                }),
                round(ps.take(i as int), tv, scan, zi, now).peers.len() == i,
                tables.deep_view() == round(ps.take(i as int), tv, scan, zi, now).tables,
                out.acts.deep_view() == round(ps.take(i as int), tv, scan, zi, now).acts,
                out.chs@ == round(ps.take(i as int), tv, scan, zi, now).chs,
            decreases self.peers@.len() - i,
        {
            let ghost r = round(ps.take(i as int), tv, scan, zi, now);
            let ghost cur = self.deep_view().peers;
            assert(cur[i as int] == ps[i as int]);
            assert(ps.take(i + 1).drop_last() =~= ps.take(i as int));
            assert(ps.take(i + 1).last() == ps[i as int]);
            self.tick_one(i, scan, zi, tables, now, &mut out);
            proof {
                let s = ps[i as int].ticked(r.tables, scan, zi, now);
                assert(cur.update(i as int, s.peer) =~= r.peers.push(s.peer) + ps.skip(i + 1));
            }
            i = i + 1;
        }
        proof {
            assert(ps.take(i as int) =~= ps);
            let r = round(ps, tv, scan, zi, now);
            assert(r.peers + ps.skip(i as int) =~= r.peers);
        }
        let ghost r = round(ps, tv, scan, zi, now);
        self.sweep(tables, now, &mut out);
        proof {
            let s = swept(r.peers, r.tables, now);
            assert(out.acts.deep_view() =~= r.acts);
            assert(out.chs@ =~= r.chs + s.chs);
        }
        (out.acts, out.chs)
    }

    /// Tells every peer we serve of one event.
    fn tell(&mut self, ev: EventTuple)
        ensures
            final(self).deep_view() == (PeersView {
                peers: told_all(old(self).deep_view().peers, Some(ev)),
                ..old(self).deep_view()
            }),
    {
        let ghost v = self.deep_view();
        let ghost ps = v.peers;
        let mut i: usize = 0;
        while i < self.peers.len()
            invariant
                i <= self.peers@.len(),
                self.peers@.len() == ps.len(),
                self.deep_view() == (PeersView { peers: self.deep_view().peers, ..v }),
                forall|j: int|
                    0 <= j < ps.len() ==> #[trigger] self.deep_view().peers[j] == (if j < i {
                        ps[j].told(ev)
                    } else {
                        ps[j]
                    }),
            decreases self.peers@.len() - i,
        {
            let ghost cur = self.deep_view().peers;
            assert(cur[i as int] == ps[i as int]);
            if self.peers[i].sender != Sender::Unconnected {
                self.peers[i].queue(ev);
            }
            assert(self.peers.deep_view() =~= cur.update(i as int, ps[i as int].told(ev)));
            i = i + 1;
        }
        assert(self.deep_view().peers =~= told_all(ps, Some(ev)));
    }

    /// Queue events for every peer we are sender to.
    pub fn route_changed(&mut self, ch: &[RouteChange], tables: &Tables)
        ensures
            final(self).deep_view() == (PeersView {
                peers: informed(old(self).deep_view().peers, ch@, tables.deep_view()),
                ..old(self).deep_view()
            }),
    {
        let ghost v = self.deep_view();
        let ghost tv = tables.deep_view();
        assert(ch@.take(0) =~= Seq::empty());
        let mut i: usize = 0;
        while i < ch.len()
            invariant
                i <= ch@.len(),
                tv == tables.deep_view(),
                self.deep_view() == (PeersView {
                    peers: informed(v.peers, ch@.take(i as int), tv),
                    ..v
                }),
            decreases ch@.len() - i,
        {
            assert(ch@.take(i + 1).drop_last() =~= ch@.take(i as int));
            assert(ch@.take(i + 1).last() == ch@[i as int]);
            if let Some(ev) = event_of(&ch[i], tables) {
                self.tell(ev);
            }
            i = i + 1;
        }
        assert(ch@.take(i as int) =~= ch@);
    }

    /// A datagram wrapped for a peer.
    pub fn forward(&self, peer: Ipv4Addr, ddp: &[u8]) -> (r: Action)
        ensures
            r.deep_view() == self.deep_view().wrapped(peer, ddp@),
    {
        let dst = match self.find(peer) {
            Some(i) => self.peers[i].di,
            None => Di::Ip(peer),
        };
        let mut data: Vec<u8> = Vec::new();
        crate::wire::push_bytes(&mut data, ddp);
        assert(data@ =~= ddp@);
        let bytes = Aurp::Data { dh: DomainHeader { dst, src: self.local }, ddp: data }.to_bytes();
        Action::ToPeer { peer, bytes }
    }

    /// RD(-1) on every sender connection; the run loop waits for the acks.
    pub fn shutdown(&mut self, now: u64) -> (r: Vec<Action>)
        ensures
            final(self).deep_view() == (PeersView {
                peers: all_shut(old(self).deep_view().peers, now),
                ..old(self).deep_view()
            }),
            r.deep_view() == all_shut_acts(old(self).deep_view().peers),
    {
        let ghost v = self.deep_view();
        let ghost ps = v.peers;
        let mut out = Out::new();
        assert(ps.take(0) =~= Seq::empty());
        let mut i: usize = 0;
        while i < self.peers.len()
            invariant
                i <= self.peers@.len(),
                self.peers@.len() == ps.len(),
                self.deep_view() == (PeersView { peers: self.deep_view().peers, ..v }),
                forall|j: int|
                    0 <= j < ps.len() ==> #[trigger] self.deep_view().peers[j] == (if j < i {
                        ps[j].shut(now)
                    } else {
                        ps[j]
                    }),
                out.acts.deep_view() == all_shut_acts(ps.take(i as int)),
            decreases self.peers@.len() - i,
        {
            let ghost cur = self.deep_view().peers;
            assert(cur[i as int] == ps[i as int]);
            assert(ps.take(i + 1).drop_last() =~= ps.take(i as int));
            assert(ps.take(i + 1).last() == ps[i as int]);
            self.peers[i].shut_down(now, &mut out);
            assert(self.peers.deep_view() =~= cur.update(i as int, ps[i as int].shut(now)));
            i = i + 1;
        }
        assert(self.deep_view().peers =~= all_shut(ps, now));
        assert(ps.take(i as int) =~= ps);
        out.acts
    }

    /// Whether a peer was resolved from a name.
    fn named(&self, name: &String) -> (r: bool)
        ensures
            r == is_named(self.deep_view().peers, name@),
    {
        let ghost ps = self.deep_view().peers;
        let mut i: usize = 0;
        while i < self.peers.len()
            invariant
                i <= self.peers@.len(),
                ps == self.deep_view().peers,
                ps.len() == self.peers@.len(),
                forall|j: int| 0 <= j < i ==> (#[trigger] ps[j]).configured != Some(name@),
            decreases self.peers@.len() - i,
        {
            assert(ps[i as int] == self.peers@[i as int].deep_view());
            if let Some(n) = &self.peers[i].configured {
                if *n == *name {
                    return true;
                }
            }
            i = i + 1;
        }
        false
    }

    /// The peers as a table, the names that did not resolve first.
    pub fn dump(&self, now: u64) -> (r: String)
        ensures
            r@ == unresolved_text(self.deep_view().configured, self.deep_view().peers)
                + peer_lines(self.deep_view().peers, now),
    {
        let ghost v = self.deep_view();
        let ghost names = v.configured;
        let mut s = String::new();
        assert(names.take(0) =~= Seq::empty());
        let mut i: usize = 0;
        while i < self.configured.len()
            invariant
                i <= self.configured@.len(),
                v == self.deep_view(),
                names == v.configured,
                names.len() == self.configured@.len(),
                s@ == unresolved_text(names.take(i as int), v.peers),
            decreases self.configured@.len() - i,
        {
            assert(names.take(i + 1).drop_last() =~= names.take(i as int));
            assert(names.take(i + 1).last() == self.configured@[i as int]@);
            if !self.named(&self.configured[i]) {
                fmt::push_padded(&mut s, self.configured[i].as_str(), 20);
                fmt::push_text(&mut s, "  unresolved\n");
            }
            i = i + 1;
        }
        assert(names.take(i as int) =~= names);
        let ghost head = s@;
        assert(v.peers.take(0) =~= Seq::empty());
        assert(head =~= head + peer_lines(v.peers.take(0), now));
        i = 0;
        while i < self.peers.len()
            invariant
                i <= self.peers@.len(),
                v == self.deep_view(),
                v.peers.len() == self.peers@.len(),
                s@ == head + peer_lines(v.peers.take(i as int), now),
            decreases self.peers@.len() - i,
        {
            assert(v.peers.take(i + 1).drop_last() =~= v.peers.take(i as int));
            assert(v.peers.take(i + 1).last() == self.peers@[i as int].deep_view());
            self.peers[i].write(&mut s, now);
            assert(s@ =~= head + peer_lines(v.peers.take(i + 1), now));
            i = i + 1;
        }
        assert(v.peers.take(i as int) =~= v.peers);
        s
    }

    /// Whether we already hold a connection to this address.
    pub fn known(&self, addr: Ipv4Addr) -> (r: bool)
        ensures
            r == (exists|i: int|
                0 <= i < self.deep_view().peers.len() && (#[trigger] self.deep_view().peers[i]).addr
                    == addr),
    {
        proof {
            lemma_find(self.deep_view().peers, addr);
        }
        self.find(addr).is_some()
    }
}

impl Peer {
    fn write_who(&self, s: &mut String)
        ensures
            final(s)@ == old(s)@ + self.deep_view().who(),
    {
        match &self.configured {
            Some(n) => fmt::push_padded(s, n.as_str(), 20),
            None => fmt::push_padded(s, "-", 20),
        }
        fmt::push_text(s, "  ");
        let a = self.addr.to_string();
        fmt::push_padded(s, a.as_str(), 15);
        assert(s@ =~= old(s)@ + self.deep_view().who());
    }

    fn write_inward(&self, s: &mut String)
        ensures
            final(s)@ == old(s)@ + self.deep_view().inward(),
    {
        fmt::push_text(s, "  recv ");
        fmt::push_padded(s, self.receiver.name(), 15);
        fmt::push_text(s, " conn ");
        let n = fmt::number(self.conn_local as u64);
        fmt::push_right(s, n.as_str(), 5);
        fmt::push_text(s, " next seq ");
        let n = fmt::number(self.seq_recv as u64);
        fmt::push_right(s, n.as_str(), 5);
        assert(s@ =~= old(s)@ + self.deep_view().inward());
    }

    fn write_outward(&self, s: &mut String)
        ensures
            final(s)@ == old(s)@ + self.deep_view().outward(),
    {
        fmt::push_text(s, "  send ");
        fmt::push_padded(s, self.sender.name(), 15);
        fmt::push_text(s, " conn ");
        let n = fmt::number(self.conn_remote as u64);
        fmt::push_right(s, n.as_str(), 5);
        fmt::push_text(s, " seq ");
        let n = fmt::number(self.seq_send as u64);
        fmt::push_right(s, n.as_str(), 5);
        assert(s@ =~= old(s)@ + self.deep_view().outward());
    }

    /// Appends the peer's line of the dump.
    fn write(&self, s: &mut String, now: u64)
        ensures
            final(s)@ == old(s)@ + self.deep_view().line(now),
    {
        self.write_who(s);
        self.write_inward(s);
        self.write_outward(s);
        fmt::push_text(s, "  ");
        fmt::push_dec(s, self.pending.len() as u64);
        fmt::push_text(s, " pending  heard ");
        fmt::push_dec(s, elapsed(now, self.last_heard) / 1000);
        fmt::push_text(s, "s ago\n");
        assert(s@ =~= old(s)@ + self.deep_view().line(now));
    }
}

/// Whether a route is one we may export.
fn is_local(r: &Route) -> (b: bool)
    ensures
        b == local_route(Some(*r)),
{
    let port = match r.target {
        Target::Port(_) => true,
        Target::Peer(_) => false,
    };
    port && r.distance < FAR
}

/// The event a route change is worth to our peers.
fn event_of(c: &RouteChange, tables: &Tables) -> (r: Option<EventTuple>)
    ensures
        r == event_for(*c, tables.deep_view()),
{
    // A route via a peer is never re-exported: every other peer on the tunnel
    // already hears about it from the peer behind it. Whether the old route's
    // zones were complete at the time is gone from the table, so `was` does not
    // ask: a peer ignores ND or NRC for a network it never heard of.
    let was = match &c.old {
        Some(r) => is_local(r),
        None => false,
    };
    let will = match &c.new {
        Some(r) => is_local(r) && match tables.zones(r.range.0) {
            Some(z) => z.complete(),
            None => false,
        },
        None => false,
    };
    match (&c.old, &c.new) {
        (Some(old), Some(new)) => if was && will {
            if old.distance == new.distance {
                None
            } else {
                Some(EventTuple { code: NDC, tuple: tuple_of(new) })
            }
        } else if was {
            Some(EventTuple { code: withdrawal(&c.new), tuple: withdrawn(old) })
        } else if will {
            Some(EventTuple { code: NA, tuple: tuple_of(new) })
        } else {
            None
        },
        (Some(old), None) => if was {
            Some(EventTuple { code: withdrawal(&c.new), tuple: withdrawn(old) })
        } else {
            None
        },
        (None, Some(new)) => if will {
            Some(EventTuple { code: NA, tuple: tuple_of(new) })
        } else {
            None
        },
        (None, None) => None,
    }
}

/// How a network that peers were told of is taken back.
fn withdrawal(new: &Option<Route>) -> (r: u8)
    ensures
        r == (if *new is Some && (*new)->0.target is Peer {
            NRC
        } else {
            ND
        }),
{
    match new {
        Some(r) => match r.target {
            Target::Peer(_) => NRC,
            Target::Port(_) => ND,
        },
        None => ND,
    }
}

fn withdrawn(r: &Route) -> (t: NetworkTuple)
    ensures
        t == (NetworkTuple { range: r.range, extended: r.extended, distance: 0 }),
{
    NetworkTuple { range: r.range, extended: r.extended, distance: 0 }
}

/// The first peer at an address stands where it stands among the first ones.
pub proof fn lemma_find_from(ps: Seq<PeerView>, a: Ipv4Addr, n: int)
    requires
        0 <= n <= ps.len(),
        find(ps.take(n), a) >= 0,
    ensures
        find(ps, a) == find(ps.take(n), a),
    decreases ps.len() - n,
{
    if n < ps.len() {
        assert(ps.take(n + 1).drop_last() =~= ps.take(n));
        lemma_find_from(ps, a, n + 1);
    } else {
        assert(ps.take(n) =~= ps);
    }
}

/// A numeral is no longer than that of a larger number.
proof fn lemma_dec_grows(n: nat, m: nat)
    requires
        n <= m,
    ensures
        fmt::dec(n).len() <= fmt::dec(m).len(),
    decreases m,
{
    if n >= 10 {
        lemma_dec_grows(n / 10, m / 10);
    }
}

proof fn lemma_small_numerals(b: u8, n: u16)
    ensures
        fmt::dec(b as nat).len() <= 3,
        fmt::dec(n as nat).len() <= 5,
{
    lemma_dec_grows(b as nat, 255);
    lemma_dec_grows(n as nat, 65535);
    reveal_with_fuel(fmt::dec, 5);
}

/// Law: the dump's columns are aligned. Whatever state a peer is in and
/// whatever its numbers are, its two connections take the same width, and so
/// does who it is where its name fits the column.
pub proof fn law_the_dump_is_aligned(p: PeerView)
    ensures
        p.inward().len() == 48,
        p.outward().len() == 43,
        (match p.configured {
            Some(n) => n.len() <= 20,
            None => true,
        }) ==> p.who().len() == 37,
{
    reveal_strlit("  ");
    reveal_strlit("-");
    reveal_strlit(".");
    reveal_strlit("  recv ");
    reveal_strlit("  send ");
    reveal_strlit(" conn ");
    reveal_strlit(" next seq ");
    reveal_strlit(" seq ");
    reveal_strlit("unconnected");
    reveal_strlit("wait open-rsp");
    reveal_strlit("wait ri-rsp");
    reveal_strlit("connected");
    reveal_strlit("wait tickle-ack");
    reveal_strlit("wait ri-rsp ack");
    reveal_strlit("wait ri-upd ack");
    reveal_strlit("wait rd ack");
    lemma_small_numerals(p.addr.0, p.conn_local);
    lemma_small_numerals(p.addr.1, p.seq_recv);
    lemma_small_numerals(p.addr.2, p.conn_remote);
    lemma_small_numerals(p.addr.3, p.seq_send);
    assert(p.receiver.text().len() <= 15);
    assert(p.sender.text().len() <= 15);
    assert(p.addr.text().len() <= 15);
}

} // verus!
