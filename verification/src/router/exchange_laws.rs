//! What the tunnel's dialog is for: which routes and zones come of it, and
//! which packets go back, said of the tables and of the packets as they read.

use vstd::prelude::*;

use crate::names::{holds_name, law_merged_holds};
use crate::router::aurp::{applied, applied_all, collapsed, learned_all, names_for, nets_named, pending_for, PeerView, Receiver, Sender};
use crate::router::pages::{law_tuple_pages, tuple_pages, zi_replies, zi_requests};
use crate::router::peers::{all_shut_acts, event_for, find, informed, PeersView};
use crate::router::route_laws::{differs, in_the_way, law_a_distance_is_set, law_a_network_is_learned, law_changes_are_reported, law_removing_a_range_of_a_target, law_the_best_of_a_range_is_the_nearest, same_way, tells_of, zones_known};
use crate::router::table::{lemma_first_from, lemma_pick, Route, RouteChange, State, TablesView, Which};
use crate::router::tunnel_laws::{lemma_pending_for, one_each, sound};
use crate::router::{ActionView, Target};
use crate::wire::aurp::{AurpView, CmdView, Di, DomainHeader, EventTuple};
use crate::wire::aurp_laws;
use crate::wire::{Addr, Ipv4Addr, NetworkTuple};

verus! {

/// A packet to a peer, from us, that reads as one command.
pub open spec fn says_to(act: ActionView, p: PeerView, conn: u16, seq: u16, cmd: CmdView) -> bool {
    let pkt = AurpView::Routing {
        dh: DomainHeader { dst: p.di, src: p.local },
        conn,
        seq,
        cmd,
    };
    &&& act matches ActionView::ToPeer { peer, bytes }
    &&& peer == p.addr && bytes == pkt.bytes()
    &&& cmd.valid() ==> AurpView::parse(bytes) == Some(pkt)
}

proof fn lemma_says(p: PeerView, conn: u16, seq: u16, cmd: CmdView)
    ensures
        says_to(p.send(conn, seq, cmd), p, conn, seq, cmd),
{
    let pkt = AurpView::Routing {
        dh: DomainHeader { dst: p.di, src: p.local },
        conn,
        seq,
        cmd,
    };
    if cmd.valid() {
        aurp_laws::law_round_trip(pkt);
    }
}

/// The number that follows, which is never 0.
pub open spec fn following(n: u16) -> int {
    if n == 65535 {
        1
    } else {
        n + 1
    }
}

/// The connection we opened, far enough along to carry data.
pub open spec fn listening(p: PeerView) -> bool {
    p.receiver == Receiver::WaitRiRsp || p.receiver == Receiver::Connected || p.receiver
        == Receiver::WaitTickleAck
}

// ------------------------------------------------------------------ the updates

/// What a network told of by a peer is stored as.
pub open spec fn from_peer(t: NetworkTuple, peer: Ipv4Addr, now: u64) -> Route {
    Route {
        range: t.range,
        extended: t.extended,
        distance: (t.distance + 1) as u8,
        target: Target::Peer(peer),
        next: Addr { net: 0, node: 0 },
        state: State::Good,
        seen: now,
    }
}

/// A route through a peer whose range starts at `start`.
pub open spec fn through(r: Route, peer: Ipv4Addr, start: u16) -> bool {
    r.target == Target::Peer(peer) && r.range.0 == start
}

/// The tables with a network told of by a peer: it is there, one hop further,
/// unless another range is in its way; every other route stays, and no other
/// comes.
pub open spec fn gained(v: TablesView, n: TablesView, t: NetworkTuple, peer: Ipv4Addr, now: u64) -> bool {
    if in_the_way(v, t.range) {
        n == v
    } else {
        &&& n.routes.contains(from_peer(t, peer, now))
        &&& forall|r: Route|
            v.routes.contains(r) && !same_way(
                r,
                t,
                Target::Peer(peer),
                Addr { net: 0, node: 0 },
            ) ==> #[trigger] n.routes.contains(r)
        &&& forall|r: Route| #[trigger]
            n.routes.contains(r) ==> v.routes.contains(r) || r == from_peer(t, peer, now)
    }
}

/// The tables without a peer's routes from a start: none of them is left, every
/// other one is, and no other has come.
pub open spec fn lost(v: TablesView, n: TablesView, peer: Ipv4Addr, start: u16) -> bool {
    forall|r: Route| #[trigger]
        n.routes.contains(r) <==> v.routes.contains(r) && !through(r, peer, start)
}

proof fn lemma_gained(v: TablesView, t: NetworkTuple, peer: Ipv4Addr, now: u64)
    requires
        t.distance < 15,
    ensures
        gained(v, v.learn(t, Target::Peer(peer), Addr { net: 0, node: 0 }, now), t, peer, now),
{
    law_a_network_is_learned(v, t, Target::Peer(peer), Addr { net: 0, node: 0 }, now);
}

proof fn lemma_lost(v: TablesView, peer: Ipv4Addr, start: u16)
    ensures
        ({
            let n = v.remove(Target::Peer(peer), start);
            &&& lost(v, n, peer, start)
            &&& v.best_from(start) matches Some(b) ==> (through(b, peer, start) ==> exists|i: int|
                0 <= i < v.changes(n, seq![start]).len() && tells_of(
                    #[trigger] v.changes(n, seq![start])[i],
                    v,
                    n,
                    start,
                ))
        }),
{
    let n = v.remove(Target::Peer(peer), start);
    law_removing_a_range_of_a_target(v, Target::Peer(peer), start);
    law_the_best_of_a_range_is_the_nearest(n, start);
    law_changes_are_reported(v, n, seq![start]);
    assert(seq![start][0] == start);
    assert(seq![start].contains(start));
    if let Some(b) = v.best_from(start) {
        if through(b, peer, start) {
            if let Some(c) = n.best_from(start) {
                assert(n.routes.contains(c));
                assert(c.target != b.target);
            }
            assert(differs(v.best_from(start), n.best_from(start)));
            let cs = v.changes(n, seq![start]);
            let i = choose|i: int|
                0 <= i < cs.len() && (#[trigger] cs[i]).old == v.best_from(start) && cs[i].new
                    == n.best_from(start);
            assert(tells_of(cs[i], v, n, start));
        }
    }
}

/// Law: an update of one event, in sequence, on the connection we opened, does
/// to the tables what the event says, and is acknowledged under its number; the
/// ack asks for zones exactly where a network was added. Event 1 adds a network
/// one hop beyond its distance. Events 2 and 3 take the peer's routes to it
/// away, and a change of the best route is reported. Event 4 moves the peer's
/// routes to its distance and one hop more, or adds the network where it is new.
/// Fifteen hops or more are as good as gone. Every other event does nothing.
pub proof fn law_an_update_does_what_its_event_says(
    p: PeerView,
    e: EventTuple,
    v: TablesView,
    now: u64,
)
    requires
        listening(p),
        p.seq_recv != 0,
    ensures
        ({
            let s = p.routing(
                p.conn_local,
                p.seq_recv,
                CmdView::RiUpd { events: seq![e] },
                v,
                now,
            );
            let start = e.tuple.range.0;
            let known = exists|i: int|
                0 <= i < v.routes.len() && through(#[trigger] v.routes[i], p.addr, start);
            let far = e.tuple.distance >= 15;
            &&& e.code == 2 || e.code == 3 || (e.code == 1 && far) || (e.code == 4 && far) ==> {
                &&& lost(v, s.tables, p.addr, start)
                &&& v.best_from(start) matches Some(b) ==> (through(b, p.addr, start)
                    ==> exists|i: int|
                    0 <= i < s.chs.len() && tells_of(#[trigger] s.chs[i], v, s.tables, start))
            }
            &&& !far && (e.code == 1 || (e.code == 4 && !known)) ==> gained(
                v,
                s.tables,
                e.tuple,
                p.addr,
                now,
            )
            &&& !far && e.code == 4 && known ==> s.tables.routes.len() == v.routes.len()
                && forall|i: int|
                0 <= i < v.routes.len() ==> (#[trigger] s.tables.routes[i]) == (if through(
                    v.routes[i],
                    p.addr,
                    start,
                ) {
                    Route { distance: (e.tuple.distance + 1) as u8, seen: now, ..v.routes[i] }
                } else {
                    v.routes[i]
                })
            &&& e.code == 0 || e.code > 4 ==> s.tables == v && s.chs.len() == 0
            &&& s.acts.len() == 1 && says_to(
                s.acts[0],
                p,
                p.conn_local,
                p.seq_recv,
                CmdView::RiAck { szi: e.code == 1 },
            )
            &&& s.peer.seq_recv == following(p.seq_recv) && s.peer.last_heard == now
                && s.peer.receiver == p.receiver
        }),
{
    lemma_update_step(p, e, v, now);
    lemma_event(v, e, p.addr, now);
}

/// One event in an update is applied, and acknowledged.
proof fn lemma_update_step(p: PeerView, e: EventTuple, v: TablesView, now: u64)
    requires
        listening(p),
        p.seq_recv != 0,
    ensures
        ({
            let s = p.routing(
                p.conn_local,
                p.seq_recv,
                CmdView::RiUpd { events: seq![e] },
                v,
                now,
            );
            &&& (s.tables, s.chs) == applied(v, e, p.addr, now)
            &&& s.acts.len() == 1 && says_to(
                s.acts[0],
                p,
                p.conn_local,
                p.seq_recv,
                CmdView::RiAck { szi: e.code == 1 },
            )
            &&& s.peer.seq_recv == following(p.seq_recv) && s.peer.last_heard == now
                && s.peer.receiver == p.receiver
        }),
{
    let es = seq![e];
    assert(es.drop_last() =~= Seq::empty());
    assert(es.last() == e);
    assert(es[0] == e);
    reveal_with_fuel(applied_all, 2);
    assert(Seq::<RouteChange>::empty() + applied(v, e, p.addr, now).1 =~= applied(
        v,
        e,
        p.addr,
        now,
    ).1);
    assert(crate::router::aurp::adds(es) == (e.code == 1)) by {
        if e.code == 1 {
            assert(es[0].code == 1);
        }
    }
    lemma_says(p, p.conn_local, p.seq_recv, CmdView::RiAck { szi: e.code == 1 });
    assert(p.routing(p.conn_local, p.seq_recv, CmdView::RiUpd { events: es }, v, now) == p.ri_upd(
        p.seq_recv,
        es,
        v,
        now,
    )) by {
        reveal(PeerView::routing);
    }
}

/// What one event does to the tables.
proof fn lemma_event(v: TablesView, e: EventTuple, peer: Ipv4Addr, now: u64)
    ensures
        ({
            let (n, chs) = applied(v, e, peer, now);
            let start = e.tuple.range.0;
            let known = exists|i: int|
                0 <= i < v.routes.len() && through(#[trigger] v.routes[i], peer, start);
            let far = e.tuple.distance >= 15;
            &&& e.code == 2 || e.code == 3 || (e.code == 1 && far) || (e.code == 4 && far) ==> {
                &&& lost(v, n, peer, start)
                &&& v.best_from(start) matches Some(b) ==> (through(b, peer, start) ==> exists|
                    i: int,
                |
                    0 <= i < chs.len() && tells_of(#[trigger] chs[i], v, n, start))
            }
            &&& !far && (e.code == 1 || (e.code == 4 && !known)) ==> gained(
                v,
                n,
                e.tuple,
                peer,
                now,
            )
            &&& !far && e.code == 4 && known ==> n.routes.len() == v.routes.len() && forall|i: int|
                0 <= i < v.routes.len() ==> (#[trigger] n.routes[i]) == (if through(
                    v.routes[i],
                    peer,
                    start,
                ) {
                    Route { distance: (e.tuple.distance + 1) as u8, seen: now, ..v.routes[i] }
                } else {
                    v.routes[i]
                })
            &&& e.code == 0 || e.code > 4 ==> n == v && chs.len() == 0
        }),
{
    let start = e.tuple.range.0;
    let knows = crate::router::aurp::knows(v, peer, start);
    let known = exists|i: int|
        0 <= i < v.routes.len() && through(#[trigger] v.routes[i], peer, start);
    assert(knows == known) by {
        if known {
            let i = choose|i: int|
                0 <= i < v.routes.len() && through(#[trigger] v.routes[i], peer, start);
            assert(v.routes[i].target == Target::Peer(peer));
        }
        if knows {
            let i = choose|i: int|
                0 <= i < v.routes.len() && (#[trigger] v.routes[i]).target == Target::Peer(peer)
                    && v.routes[i].range.0 == start;
            assert(through(v.routes[i], peer, start));
        }
    }
    let far = e.tuple.distance >= 15;
    if e.code == 2 || e.code == 3 || ((e.code == 1 || e.code == 4) && far) {
        lemma_lost(v, peer, start);
        assert(applied(v, e, peer, now) == crate::router::aurp::dropped(v, peer, start));
        if let Some(b) = v.best_from(start) {
            if through(b, peer, start) {
                let n = v.remove(Target::Peer(peer), start);
                let cs = v.changes(n, seq![start]);
                let i = choose|i: int| 0 <= i < cs.len() && tells_of(#[trigger] cs[i], v, n, start);
                assert(tells_of(applied(v, e, peer, now).1[i], v, n, start));
            }
        }
    } else if e.code == 1 || (e.code == 4 && !known) {
        lemma_gained(v, e.tuple, peer, now);
    } else if e.code == 4 {
        let d = (e.tuple.distance + 1) as u8;
        let n = v.set_distance(Target::Peer(peer), start, d, now);
        assert(applied(v, e, peer, now).0 == n);
        law_a_distance_is_set(v, Target::Peer(peer), start, d, now);
        assert forall|i: int| 0 <= i < v.routes.len() implies (#[trigger] n.routes[i]) == (
        if through(v.routes[i], peer, start) {
            Route { distance: d, seen: now, ..v.routes[i] }
        } else {
            v.routes[i]
        }) by {
            let r = v.routes[i];
        }
    }
}

/// Law: an update of several events is its events one after the other, and is
/// acknowledged once, asking for zones where any of them adds a network.
pub proof fn law_updates_are_their_events_in_turn(
    p: PeerView,
    es: Seq<EventTuple>,
    e: EventTuple,
    v: TablesView,
    now: u64,
)
    requires
        listening(p),
        p.seq_recv != 0,
    ensures
        ({
            let run = |x: Seq<EventTuple>, t: TablesView|
                p.routing(p.conn_local, p.seq_recv, CmdView::RiUpd { events: x }, t, now);
            let first = run(es, v);
            let then = run(seq![e], first.tables);
            let both = run(es.push(e), v);
            &&& both.tables == then.tables
            &&& both.chs == first.chs + then.chs
            &&& both.acts.len() == 1 && says_to(
                both.acts[0],
                p,
                p.conn_local,
                p.seq_recv,
                CmdView::RiAck {
                    szi: e.code == 1 || exists|i: int|
                        0 <= i < es.len() && (#[trigger] es[i]).code == 1,
                },
            )
            &&& run(Seq::empty(), v).tables == v && run(Seq::empty(), v).chs.len() == 0
        }),
{
    reveal(PeerView::routing);
    let all = es.push(e);
    assert(all.drop_last() =~= es);
    assert(seq![e].drop_last() =~= Seq::empty());
    reveal_with_fuel(applied_all, 2);
    let m = applied_all(v, es, p.addr, now).0;
    assert(Seq::<RouteChange>::empty() + applied(m, e, p.addr, now).1 =~= applied(
        m,
        e,
        p.addr,
        now,
    ).1);
    let szi = e.code == 1 || exists|i: int| 0 <= i < es.len() && (#[trigger] es[i]).code == 1;
    assert(crate::router::aurp::adds(all) == szi) by {
        if e.code == 1 {
            assert(all[es.len() as int].code == 1);
        }
        if exists|i: int| 0 <= i < es.len() && (#[trigger] es[i]).code == 1 {
            let i = choose|i: int| 0 <= i < es.len() && (#[trigger] es[i]).code == 1;
            assert(all[i].code == 1);
        }
        if crate::router::aurp::adds(all) && e.code != 1 {
            let i = choose|i: int| 0 <= i < all.len() && (#[trigger] all[i]).code == 1;
            assert(es[i].code == 1);
        }
    }
    lemma_says(p, p.conn_local, p.seq_recv, CmdView::RiAck { szi });
}

/// Law: a page of the peer's routes, in sequence, is learned tuple by tuple,
/// each one hop further; fifteen hops or more are passed over. It is
/// acknowledged with a request for the zones, and the last one makes the
/// connection complete.
pub proof fn law_a_page_of_routes_is_learned(
    p: PeerView,
    last: bool,
    ts: Seq<NetworkTuple>,
    t: NetworkTuple,
    v: TablesView,
    now: u64,
)
    requires
        listening(p),
        p.seq_recv != 0,
    ensures
        ({
            let run = |x: Seq<NetworkTuple>, w: TablesView|
                p.routing(
                    p.conn_local,
                    p.seq_recv,
                    CmdView::RiRsp { last, tuples: x },
                    w,
                    now,
                );
            let first = run(ts, v);
            let both = run(ts.push(t), v);
            &&& run(Seq::empty(), v).tables == v
            &&& t.distance < 15 ==> gained(first.tables, both.tables, t, p.addr, now)
            &&& t.distance >= 15 ==> both.tables == first.tables && both.chs == first.chs
            &&& both.acts.len() == 1 && says_to(
                both.acts[0],
                p,
                p.conn_local,
                p.seq_recv,
                CmdView::RiAck { szi: true },
            )
            &&& both.peer.seq_recv == following(p.seq_recv) && both.peer.last_heard == now
            &&& both.peer.receiver == (if last {
                Receiver::Connected
            } else {
                p.receiver
            })
        }),
{
    reveal(PeerView::routing);
    let all = ts.push(t);
    assert(all.drop_last() =~= ts);
    let m = learned_all(v, ts, p.addr, now).0;
    if t.distance < 15 {
        lemma_gained(m, t, p.addr, now);
    }
    lemma_says(p, p.conn_local, p.seq_recv, CmdView::RiAck { szi: true });
}

/// Law: a peer that goes down, in sequence, loses all its routes and no other's,
/// both connections, and is acknowledged.
pub proof fn law_a_peer_that_goes_down_takes_its_routes(p: PeerView, code: i16, v: TablesView, now: u64)
    requires
        listening(p),
        p.seq_recv != 0,
    ensures
        ({
            let s = p.routing(p.conn_local, p.seq_recv, CmdView::Rd { code }, v, now);
            &&& forall|r: Route| #[trigger]
                s.tables.routes.contains(r) <==> v.routes.contains(r) && r.target
                    != Target::Peer(p.addr)
            &&& s.peer.receiver == Receiver::Unconnected && s.peer.sender == Sender::Unconnected
            &&& s.acts.len() == 1 && says_to(
                s.acts[0],
                p,
                p.conn_local,
                p.seq_recv,
                CmdView::RiAck { szi: false },
            )
        }),
{
    reveal(PeerView::routing);
    crate::router::table_laws::lemma_without(v.routes, Target::Peer(p.addr), None);
    lemma_says(p, p.conn_local, p.seq_recv, CmdView::RiAck { szi: false });
}

// -------------------------------------------------------------------- the zones

/// A cable of our own holds the network.
pub open spec fn ours(v: TablesView, net: u16) -> bool {
    v.pick(Which::Net(net)) matches Some(r) && r.target is Port
}

/// The zones of a range are what they were.
pub open spec fn same_zones(v: TablesView, n: TablesView, k: u16) -> bool {
    n.zones.contains_key(k) == v.zones.contains_key(k) && (v.zones.contains_key(k) ==> n.zones[k]
        == v.zones[k])
}

/// The zones of a range begin with what they were.
pub open spec fn more_zones(v: TablesView, n: TablesView, k: u16) -> bool {
    n.zones.contains_key(k) && v.zones[k].1.names.is_prefix_of(n.zones[k].1.names)
}

/// Law: the zones a peer names are kept for every network that some route
/// reaches and no cable of ours holds, and beside those known before; a network
/// on a cable of ours keeps the zones it has. Nothing goes back.
pub proof fn law_zones_a_peer_names_are_kept(
    p: PeerView,
    extended: Option<u16>,
    zs: Seq<(u16, Seq<char>)>,
    v: TablesView,
    now: u64,
)
    requires
        listening(p),
    ensures
        ({
            let s = p.routing(
                p.conn_local,
                0,
                CmdView::ZiRsp { extended, zones: zs },
                v,
                now,
            );
            &&& s.acts.len() == 0 && s.peer.last_heard == now && s.tables.routes == v.routes
            &&& forall|i: int, j: int|
                0 <= i < zs.len() && !ours(v, zs[i].0) && 0 <= j < v.routes.len()
                    && v.routes[j].range.0 == zs[i].0 ==> s.tables.zones.contains_key(
                    (#[trigger] zs[i]).0,
                ) && holds_name(s.tables.zones[zs[i].0].1.names, zs[i].1) && (extended matches Some(
                    n,
                ) ==> s.tables.zones[zs[i].0].1.expected == Some(n as usize)) && (
                #[trigger] v.routes[j]).range.0 == zs[i].0
            &&& forall|k: u16| #[trigger] ours(v, k) ==> same_zones(v, s.tables, k)
            &&& forall|k: u16| #[trigger] v.zones.contains_key(k) ==> more_zones(v, s.tables, k)
        }),
{
    assert(p.routing(p.conn_local, 0, CmdView::ZiRsp { extended, zones: zs }, v, now) == p.zi_rsp(
        extended,
        zs,
        v,
        now,
    )) by {
        reveal(PeerView::routing);
    }
    let nets = nets_named(zs);
    let n = crate::router::aurp::zones_added(v, nets, zs, extended).0;
    lemma_zones_added(v, nets, zs, extended);
    assert forall|i: int, j: int|
        0 <= i < zs.len() && !ours(v, zs[i].0) && 0 <= j < v.routes.len() && v.routes[j].range.0
            == zs[i].0 implies n.zones.contains_key((#[trigger] zs[i]).0) && holds_name(
        n.zones[zs[i].0].1.names,
        zs[i].1,
    ) && (extended matches Some(x) ==> n.zones[zs[i].0].1.expected == Some(x as usize)) && (
    #[trigger] v.routes[j]).range.0 == zs[i].0 by {
        lemma_nets_named(zs, i);
        lemma_names_for(zs, i);
        let net = zs[i].0;
        let k = choose|k: int| 0 <= k < nets.len() && nets[k] == net;
        assert(taken(v, n, nets[k], zs, extended));
        let names = names_for(zs, net);
        let m = choose|m: int| 0 <= m < names.len() && names[m] == zs[i].1;
        assert(holds_name(n.zones[net].1.names, names[m]));
    }
}

/// What has become of a network's zones once a list was gone through.
spec fn taken(
    v: TablesView,
    n: TablesView,
    net: u16,
    zs: Seq<(u16, Seq<char>)>,
    extended: Option<u16>,
) -> bool {
    !ours(v, net) && v.has_start(net) ==> {
        &&& n.zones.contains_key(net)
        &&& forall|m: int|
            0 <= m < names_for(zs, net).len() ==> holds_name(
                n.zones[net].1.names,
                #[trigger] names_for(zs, net)[m],
            )
        &&& extended matches Some(x) ==> n.zones[net].1.expected == Some(x as usize)
    }
}

proof fn lemma_zones_added(
    v: TablesView,
    nets: Seq<u16>,
    zs: Seq<(u16, Seq<char>)>,
    extended: Option<u16>,
)
    ensures
        ({
            let n = crate::router::aurp::zones_added(v, nets, zs, extended).0;
            &&& n.routes == v.routes && n.best == v.best
            &&& forall|k: int| 0 <= k < nets.len() ==> taken(v, n, #[trigger] nets[k], zs, extended)
            &&& forall|k: u16| #[trigger] ours(v, k) ==> same_zones(v, n, k)
            &&& forall|k: u16| #[trigger] v.zones.contains_key(k) ==> more_zones(v, n, k)
        }),
    decreases nets.len(),
{
    if nets.len() > 0 {
        let a = nets.drop_last();
        let l = nets.last();
        lemma_zones_added(v, a, zs, extended);
        let m = crate::router::aurp::zones_added(v, a, zs, extended).0;
        let n = crate::router::aurp::zones_added(v, nets, zs, extended).0;
        assert forall|k: u16| ours(m, k) == ours(v, k) by {
            lemma_pick(v, v.routes, Which::Net(k));
            lemma_pick(m, m.routes, Which::Net(k));
        }
        lemma_first_from(v.routes, l);
        let had = if m.zones.contains_key(l) {
            m.zones[l].1.names
        } else {
            Seq::empty()
        };
        law_merged_holds(had, names_for(zs, l));
        assert(ours(m, l) == ours(v, l));
        if v.has_start(l) {
            let i = choose|i: int| 0 <= i < v.routes.len() && (#[trigger] v.routes[i]).range.0 == l;
            assert(crate::router::table::first_from(v.routes, l) is Some);
        }
        assert forall|k: int| 0 <= k < nets.len() implies taken(
            v,
            n,
            #[trigger] nets[k],
            zs,
            extended,
        ) by {
            if nets[k] != l {
                assert(a[k] == nets[k]);
                assert(taken(v, m, a[k], zs, extended));
            }
        }
        assert forall|k: u16| #[trigger] ours(v, k) implies same_zones(v, n, k) by {
            assert(same_zones(v, m, k));
            assert(ours(m, k));
        }
        assert forall|k: u16| #[trigger] v.zones.contains_key(k) implies more_zones(v, n, k) by {
            assert(more_zones(v, m, k));
        }
    }
}

proof fn lemma_nets_named(zs: Seq<(u16, Seq<char>)>, i: int)
    requires
        0 <= i < zs.len(),
    ensures
        nets_named(zs).contains(zs[i].0),
    decreases zs.len(),
{
    let a = zs.drop_last();
    let s = nets_named(a);
    let w = nets_named(zs);
    if i < a.len() {
        lemma_nets_named(a, i);
        assert(a[i] == zs[i]);
        let k = choose|k: int| 0 <= k < s.len() && s[k] == zs[i].0;
        assert(w[k] == zs[i].0);
    } else if !s.contains(zs.last().0) {
        assert(w[s.len() as int] == zs[i].0);
    }
}

proof fn lemma_names_for(zs: Seq<(u16, Seq<char>)>, i: int)
    requires
        0 <= i < zs.len(),
    ensures
        names_for(zs, zs[i].0).contains(zs[i].1),
    decreases zs.len(),
{
    let a = zs.drop_last();
    let net = zs[i].0;
    let s = names_for(a, net);
    let w = names_for(zs, net);
    if i < a.len() {
        lemma_names_for(a, i);
        assert(a[i] == zs[i]);
        let k = choose|k: int| 0 <= k < s.len() && s[k] == zs[i].1;
        assert(w[k] == zs[i].1);
    } else {
        assert(w[s.len() as int] == zs[i].1);
    }
}

// -------------------------------------------------------------- the connections

/// Law: an Open-Req of version 1 without options, on no other connection than
/// the one served, is answered with rate 1 and makes us the peer's data sender;
/// and where we have no connection to the peer we ask for one in turn. Another
/// version is refused with error -5, options with -4, and neither changes
/// anything. One that would take over an open connection is not answered.
pub proof fn law_an_open_request_is_answered(
    p: PeerView,
    conn: u16,
    sui: u16,
    version: u16,
    options: Seq<(u8, Seq<u8>)>,
    v: TablesView,
    now: u64,
)
    ensures
        ({
            let s = p.routing(conn, 0, CmdView::OpenReq { sui, version, options }, v, now);
            let answer = |rate_or_err: i16|
                CmdView::OpenRsp { env: 0, rate_or_err, options: Seq::empty() };
            let free = p.sender == Sender::Unconnected || conn == p.conn_remote;
            &&& s.tables == v && s.chs.len() == 0
            &&& version != 1 ==> s.peer == p && s.acts.len() == 1 && says_to(
                s.acts[0],
                p,
                conn,
                0,
                answer(-5i16),
            )
            &&& version == 1 && options.len() > 0 ==> s.peer == p && s.acts.len() == 1 && says_to(
                s.acts[0],
                p,
                conn,
                0,
                answer(-4i16),
            )
            &&& version == 1 && options.len() == 0 && free ==> {
                &&& s.peer.sender == Sender::Connected && s.peer.conn_remote == conn
                    && s.peer.seq_send == 0 && s.peer.outstanding is None
                &&& s.acts.len() >= 1 && says_to(s.acts[0], p, conn, 0, answer(1i16))
                &&& p.receiver == Receiver::Unconnected ==> s.acts.len() == 2 && says_to(
                    s.acts[1],
                    p,
                    p.conn_local,
                    0,
                    CmdView::OpenReq { sui: 0x7800, version: 1, options: Seq::empty() },
                ) && s.peer.receiver == Receiver::WaitOpenRsp
                &&& p.receiver != Receiver::Unconnected ==> s.acts.len() == 1 && s.peer.receiver
                    == p.receiver
            }
            &&& version == 1 && options.len() == 0 && !free ==> {
                &&& s.peer.conn_remote == p.conn_remote && s.peer.sender != Sender::Unconnected
                &&& p.outstanding is None && !p.probing ==> s.acts.len() == 1 && s.peer.probing
                    && s.acts[0] is ToPeer && (s.peer.outstanding matches Some(o) && o.bytes
                    == s.acts[0]->bytes)
                &&& p.outstanding is Some || p.probing ==> s.acts.len() == 0 && s.peer == p
            }
        }),
{
    assert(p.routing(conn, 0, CmdView::OpenReq { sui, version, options }, v, now) == p.open_req(
        conn,
        version,
        options,
        v,
        now,
    )) by {
        reveal(PeerView::routing);
    }
    lemma_says(p, conn, 0, CmdView::OpenRsp { env: 0, rate_or_err: -5i16, options: Seq::empty() });
    lemma_says(p, conn, 0, CmdView::OpenRsp { env: 0, rate_or_err: -4i16, options: Seq::empty() });
    lemma_says(p, conn, 0, CmdView::OpenRsp { env: 0, rate_or_err: 1i16, options: Seq::empty() });
    lemma_says(
        p,
        p.conn_local,
        0,
        CmdView::OpenReq { sui: 0x7800, version: 1, options: Seq::empty() },
    );
}

/// Law: once our Open-Req is accepted we ask for the peer's routes; an error
/// closes our end, and the next request carries another connection ID.
pub proof fn law_an_accepted_connection_asks_for_routes(
    p: PeerView,
    env: u16,
    rate_or_err: i16,
    options: Seq<(u8, Seq<u8>)>,
    v: TablesView,
    now: u64,
)
    requires
        p.receiver == Receiver::WaitOpenRsp,
    ensures
        ({
            let s = p.routing(
                p.conn_local,
                0,
                CmdView::OpenRsp { env, rate_or_err, options },
                v,
                now,
            );
            &&& s.tables == v && s.chs.len() == 0
            &&& rate_or_err >= 0 ==> s.peer.receiver == Receiver::WaitRiRsp && s.peer.seq_recv == 1
                && s.peer.conn_local == p.conn_local && s.peer.last_heard == now && s.acts.len()
                == 1 && says_to(s.acts[0], p, p.conn_local, 0, CmdView::RiReq { sui: 0x7800 })
            &&& rate_or_err < 0 ==> s.peer.receiver == Receiver::Unconnected && s.acts.len() == 0
                && s.peer.conn_local != p.conn_local
        }),
{
    reveal(PeerView::routing);
    lemma_says(p, p.conn_local, 0, CmdView::RiReq { sui: 0x7800 });
}

/// Law: a peer that asks for our routes gets all that we export, in pages: the
/// first at once under number 1, the rest kept to follow in order, the last one
/// marked as such.
pub proof fn law_a_peer_gets_all_our_routes(p: PeerView, sui: u16, v: TablesView, now: u64)
    requires
        p.sender == Sender::Connected || p.sender == Sender::WaitRiRspAck || p.sender
            == Sender::WaitRiUpdAck,
    ensures
        ({
            let s = p.routing(p.conn_remote, 0, CmdView::RiReq { sui }, v, now);
            let page = s.peer.pages.len() as int;
            &&& s.acts.len() == 1 && s.peer.sender == Sender::WaitRiRspAck && s.tables == v
            &&& exists|first: Seq<NetworkTuple>|
                #![auto]
                first + s.peer.pages.flatten() == v.export() && says_to(
                    s.acts[0],
                    p,
                    p.conn_remote,
                    1,
                    CmdView::RiRsp { last: s.peer.pages.len() == 0, tuples: first },
                )
            &&& s.peer.outstanding matches Some(o) && o.seq == 1 && o.tries == 1 && o.at == now
                && o.bytes == s.acts[0]->bytes
        }),
{
    reveal(PeerView::routing);
    let s = p.routing(p.conn_remote, 0, CmdView::RiReq { sui }, v, now);
    let ts = v.export();
    law_tuple_pages(ts);
    let ps = tuple_pages(ts).pages;
    let first = ps[0];
    let rest = ps.drop_first();
    assert(ps =~= seq![first] + rest);
    lemma_flatten_first(ps);
    let cmd = CmdView::RiRsp { last: rest.len() == 0, tuples: first };
    lemma_says(p, p.conn_remote, 1, cmd);
    assert(first + s.peer.pages.flatten() == v.export());
    assert(says_to(
        s.acts[0],
        p,
        p.conn_remote,
        1,
        CmdView::RiRsp { last: s.peer.pages.len() == 0, tuples: first },
    ));
}

proof fn lemma_flatten_first(ps: Seq<Seq<NetworkTuple>>)
    requires
        ps.len() > 0,
    ensures
        ps.flatten() == ps[0] + ps.drop_first().flatten(),
{
    assert(ps.first() == ps[0]);
}

/// Law: an ack of the page that is out lets the next one out under the next
/// number, and the ack of the last one leaves the connection at rest; one that
/// asks for zones gets those of the networks of that page, all of them.
pub proof fn law_an_ack_lets_the_next_page_out(p: PeerView, szi: bool, v: TablesView, now: u64)
    requires
        p.sender == Sender::WaitRiRspAck,
        p.outstanding is Some,
    ensures
        ({
            let o = p.outstanding->0;
            let s = p.routing(p.conn_remote, o.seq, CmdView::RiAck { szi }, v, now);
            let zones = if szi {
                zi_replies(o.nets, v)
            } else {
                Seq::empty()
            };
            &&& s.tables == v && s.acts.len() >= zones.len()
            &&& forall|i: int|
                0 <= i < zones.len() ==> says_to(
                    #[trigger] s.acts[i],
                    p,
                    p.conn_remote,
                    0,
                    zones[i],
                )
            &&& p.pages.len() > 0 ==> s.acts.len() == zones.len() + 1 && says_to(
                s.acts[zones.len() as int],
                p,
                p.conn_remote,
                following(p.seq_send) as u16,
                CmdView::RiRsp { last: p.pages.len() == 1, tuples: p.pages[0] },
            ) && s.peer.pages == p.pages.drop_first() && s.peer.sender == Sender::WaitRiRspAck
            &&& p.pages.len() == 0 ==> s.acts.len() == zones.len() && s.peer.sender
                == Sender::Connected && s.peer.outstanding is None
        }),
{
    reveal(PeerView::routing);
    let o = p.outstanding->0;
    let s = p.routing(p.conn_remote, o.seq, CmdView::RiAck { szi }, v, now);
    let zones = if szi {
        zi_replies(o.nets, v)
    } else {
        Seq::empty()
    };
    assert forall|i: int| 0 <= i < zones.len() implies says_to(
        #[trigger] s.acts[i],
        p,
        p.conn_remote,
        0,
        zones[i],
    ) by {
        lemma_says(p, p.conn_remote, 0, zones[i]);
    }
    if p.pages.len() > 0 {
        lemma_says(
            p,
            p.conn_remote,
            following(p.seq_send) as u16,
            CmdView::RiRsp { last: p.pages.len() == 1, tuples: p.pages[0] },
        );
    }
}

/// Law: an ack of an update or of a probe leaves the connection at rest, and an
/// ack of our RD closes it; an ack under any other number does nothing.
pub proof fn law_an_ack_settles_what_is_out(p: PeerView, seq: u16, szi: bool, v: TablesView, now: u64)
    ensures
        ({
            let s = p.routing(p.conn_remote, seq, CmdView::RiAck { szi }, v, now);
            let hit = p.outstanding matches Some(o) && o.seq == seq;
            &&& !hit ==> s.peer == p && s.acts.len() == 0
            &&& hit && p.sender == Sender::WaitRiUpdAck ==> s.peer.sender == Sender::Connected
                && s.peer.outstanding is None && !s.peer.probing
            &&& hit && p.sender == Sender::WaitRdAck ==> s.peer.sender == Sender::Unconnected
                && s.peer.outstanding is None
        }),
{
    reveal(PeerView::routing);
}

/// Law: on a connection we serve, a tickle is answered, a question for zones is
/// answered with all of them, and the two questions we do not support are
/// answered as unsupported.
pub proof fn law_a_served_peer_is_answered(
    p: PeerView,
    nets: Seq<u16>,
    zone: Seq<char>,
    start: u16,
    v: TablesView,
    now: u64,
)
    requires
        p.sender != Sender::Unconnected,
    ensures
        ({
            let c = p.conn_remote;
            let t = p.routing(c, 0, CmdView::Tickle, v, now);
            let z = p.routing(c, 0, CmdView::ZiReq { nets }, v, now);
            let g = p.routing(c, 0, CmdView::GznReq { zone }, v, now);
            let d = p.routing(c, 0, CmdView::GdzlReq { start }, v, now);
            let replies = zi_replies(nets, v);
            &&& t.acts.len() == 1 && says_to(t.acts[0], p, c, 0, CmdView::TickleAck)
            &&& z.acts.len() == replies.len() && forall|i: int|
                0 <= i < replies.len() ==> says_to(#[trigger] z.acts[i], p, c, 0, replies[i])
            &&& g.acts.len() == 1 && says_to(
                g.acts[0],
                p,
                c,
                0,
                CmdView::GznRsp { zone, tuples: None },
            )
            &&& d.acts.len() == 1 && says_to(
                d.acts[0],
                p,
                c,
                0,
                CmdView::GdzlRsp { last: true, start: -1i16, zones: Seq::empty() },
            )
            &&& t.tables == v && z.tables == v && g.tables == v && d.tables == v
        }),
{
    reveal(PeerView::routing);
    let c = p.conn_remote;
    lemma_says(p, c, 0, CmdView::TickleAck);
    lemma_says(p, c, 0, CmdView::GznRsp { zone, tuples: None });
    lemma_says(p, c, 0, CmdView::GdzlRsp { last: true, start: -1i16, zones: Seq::empty() });
    let replies = zi_replies(nets, v);
    let z = p.routing(c, 0, CmdView::ZiReq { nets }, v, now);
    assert forall|i: int| 0 <= i < replies.len() implies says_to(
        #[trigger] z.acts[i],
        p,
        c,
        0,
        replies[i],
    ) by {
        lemma_says(p, c, 0, replies[i]);
    }
}

/// Law: a tickle that is answered leaves our connection at rest.
pub proof fn law_an_answered_tickle_is_a_sign_of_life(p: PeerView, v: TablesView, now: u64)
    requires
        p.receiver == Receiver::WaitTickleAck,
    ensures
        ({
            let s = p.routing(p.conn_local, 0, CmdView::TickleAck, v, now);
            s.peer.receiver == Receiver::Connected && s.peer.last_heard == now && s.tables == v
                && s.acts.len() == 0
        }),
{
    reveal(PeerView::routing);
}

// -------------------------------------------------------------------- the clock

/// Law: what we wait for is asked again every ten seconds, five times in all,
/// and then given up; a connection quiet for more than ninety seconds is
/// tickled, every ten seconds and ten times, and then closed.
pub proof fn law_our_questions_are_repeated(p: PeerView, v: TablesView, now: u64)
    ensures
        ({
            let s = p.receiver_ticked(v, now);
            let waited = now - p.recv_at >= 10000;
            &&& p.receiver == Receiver::WaitOpenRsp && waited && p.recv_tries < 5 ==> s.acts.len()
                == 1 && says_to(
                s.acts[0],
                p,
                p.conn_local,
                0,
                CmdView::OpenReq { sui: 0x7800, version: 1, options: Seq::empty() },
            ) && s.peer.recv_tries == p.recv_tries + 1 && s.peer.recv_at == now
            &&& p.receiver == Receiver::WaitRiRsp && waited && p.recv_tries < 5 ==> s.acts.len()
                == 1 && says_to(s.acts[0], p, p.conn_local, 0, CmdView::RiReq { sui: 0x7800 })
                && s.peer.recv_tries == p.recv_tries + 1 && s.peer.recv_at == now
            &&& (p.receiver == Receiver::WaitOpenRsp || p.receiver == Receiver::WaitRiRsp) && waited
                && p.recv_tries >= 5 ==> s.peer.receiver == Receiver::Unconnected && s.acts.len()
                == 0 && s.tables == v
            &&& p.receiver == Receiver::Connected && now - p.last_heard > 90000 ==> s.acts.len()
                == 1 && says_to(s.acts[0], p, p.conn_local, 0, CmdView::Tickle) && s.peer.receiver
                == Receiver::WaitTickleAck
            &&& p.receiver == Receiver::Connected && now - p.last_heard <= 90000 ==> s.peer == p
                && s.acts.len() == 0
            &&& p.receiver == Receiver::WaitTickleAck && waited && p.recv_tries < 10
                ==> s.acts.len() == 1 && says_to(s.acts[0], p, p.conn_local, 0, CmdView::Tickle)
                && s.peer.recv_tries == p.recv_tries + 1 && s.tables == v
            &&& p.receiver == Receiver::WaitTickleAck && waited && p.recv_tries >= 10
                ==> s.peer.receiver == Receiver::Unconnected && forall|r: Route| #[trigger]
                s.tables.routes.contains(r) <==> v.routes.contains(r) && r.target
                    != Target::Peer(p.addr)
            &&& p.receiver != Receiver::Connected && !waited ==> s.peer == p && s.acts.len() == 0
            &&& p.receiver == Receiver::Unconnected ==> s.peer == p && s.acts.len() == 0
        }),
{
    lemma_says(
        p,
        p.conn_local,
        0,
        CmdView::OpenReq { sui: 0x7800, version: 1, options: Seq::empty() },
    );
    lemma_says(p, p.conn_local, 0, CmdView::RiReq { sui: 0x7800 });
    lemma_says(p, p.conn_local, 0, CmdView::Tickle);
    crate::router::table_laws::lemma_without(v.routes, Target::Peer(p.addr), None);
}

/// Law: what is pending goes out in one update, once ten seconds have passed
/// since the last and nothing is out; what is out is repeated every ten
/// seconds, byte for byte, five times in all, and then the connection is given
/// up.
pub proof fn law_updates_go_out(p: PeerView, v: TablesView, now: u64)
    ensures
        ({
            let s = p.sender_ticked(v, now);
            &&& s.tables == v
            &&& p.outstanding is None && p.sender == Sender::Connected && p.pending.len() > 0 && now
                - p.last_update >= 10000 ==> s.acts.len() == 1 && says_to(
                s.acts[0],
                p,
                p.conn_remote,
                following(p.seq_send) as u16,
                CmdView::RiUpd { events: p.pending },
            ) && s.peer.pending.len() == 0 && s.peer.sender == Sender::WaitRiUpdAck
                && s.peer.last_update == now && (s.peer.outstanding matches Some(o) && o.seq
                == following(p.seq_send) && o.bytes == s.acts[0]->bytes)
            &&& p.outstanding is None && (p.sender != Sender::Connected || p.pending.len() == 0
                || now - p.last_update < 10000) ==> s.peer == p && s.acts.len() == 0
            &&& p.outstanding matches Some(o) ==> {
                &&& now - o.at < 10000 ==> s.peer == p && s.acts.len() == 0
                &&& now - o.at >= 10000 && o.tries < 5 ==> s.acts.len() == 1 && s.acts[0]
                    == ActionView::ToPeer { peer: p.addr, bytes: o.bytes }
                &&& now - o.at >= 10000 && o.tries >= 5 ==> s.acts.len() == 0 && s.peer.sender
                    == Sender::Unconnected && s.peer.outstanding is None
            }
        }),
{
    lemma_says(
        p,
        p.conn_remote,
        following(p.seq_send) as u16,
        CmdView::RiUpd { events: p.pending },
    );
}

/// Law: a configured peer without a connection is asked for one, unless it was
/// asked in the last ten minutes; nobody else is.
pub proof fn law_configured_peers_are_reconnected(p: PeerView, v: TablesView, now: u64)
    ensures
        ({
            let s = p.reconnected(v, now);
            let due = p.configured is Some && p.receiver == Receiver::Unconnected && (
            p.last_reconnect matches Some(t) ==> now - t > 600000);
            &&& due ==> s.acts.len() == 1 && says_to(
                s.acts[0],
                p,
                p.conn_local,
                0,
                CmdView::OpenReq { sui: 0x7800, version: 1, options: Seq::empty() },
            ) && s.peer.receiver == Receiver::WaitOpenRsp && s.peer.last_reconnect == Some(now)
            &&& !due ==> s.peer == p && s.acts.len() == 0
            &&& s.tables == v
        }),
{
    lemma_says(
        p,
        p.conn_local,
        0,
        CmdView::OpenReq { sui: 0x7800, version: 1, options: Seq::empty() },
    );
}

/// Law: a peer with a connection open is asked for the zones of every network
/// behind it that misses them.
pub proof fn law_missing_zones_are_asked_for(p: PeerView, v: TablesView, r: Route)
    requires
        listening(p),
        v.best_from(r.range.0) == Some(r),
        r.target == Target::Peer(p.addr),
        !zones_known(v, r.range.0),
    ensures
        ({
            let s = p.zi_asked(v);
            exists|i: int, nets: Seq<u16>|
                #![auto]
                0 <= i < s.acts.len() && nets.contains(r.range.0) && says_to(
                    s.acts[i],
                    p,
                    p.conn_local,
                    0,
                    CmdView::ZiReq { nets },
                )
        }),
{
    crate::router::route_laws::law_networks_without_zones(v);
    assert(v.zoneless().contains(r));
    let nets = p.zoneless(v);
    lemma_starts_through(v.zoneless(), r);
    crate::router::pages::law_zi_requests(nets);
    let cs = zi_requests(nets);
    lemma_asked_in(cs, r.range.0);
    let i = choose|i: int|
        0 <= i < cs.len() && ((#[trigger] cs[i]) matches CmdView::ZiReq { nets: ns }
            && ns.contains(r.range.0));
    let s = p.zi_asked(v);
    lemma_says(p, p.conn_local, 0, cs[i]);
    let ns = cs[i]->ZiReq_nets;
    assert(says_to(s.acts[i], p, p.conn_local, 0, CmdView::ZiReq { nets: ns }));
}

proof fn lemma_starts_through(rs: Seq<Route>, r: Route)
    requires
        rs.contains(r),
    ensures
        crate::router::aurp::starts_through(rs, r.target).contains(r.range.0),
    decreases rs.len(),
{
    let a = rs.drop_last();
    let s = crate::router::aurp::starts_through(a, r.target);
    let w = crate::router::aurp::starts_through(rs, r.target);
    if rs.last() == r {
        assert(w[s.len() as int] == r.range.0);
    } else {
        let j = choose|j: int| 0 <= j < rs.len() && rs[j] == r;
        assert(a[j] == r);
        lemma_starts_through(a, r);
        let k = choose|k: int| 0 <= k < s.len() && s[k] == r.range.0;
        assert(w[k] == r.range.0);
    }
}

proof fn lemma_asked_in(cs: Seq<CmdView>, net: u16)
    requires
        crate::router::pages::asked(cs).contains(net),
    ensures
        exists|i: int|
            0 <= i < cs.len() && ((#[trigger] cs[i]) matches CmdView::ZiReq { nets }
                && nets.contains(net)),
    decreases cs.len(),
{
    let all = crate::router::pages::asked(cs);
    let k = choose|k: int| 0 <= k < all.len() && all[k] == net;
    let head = match cs[0] {
        CmdView::ZiReq { nets } => nets,
        _ => Seq::empty(),
    };
    let rest = crate::router::pages::asked(cs.drop_first());
    if k < head.len() {
        assert(head[k] == net);
        assert(cs[0] matches CmdView::ZiReq { nets } && nets.contains(net));
    } else {
        assert(rest[k - head.len()] == net);
        lemma_asked_in(cs.drop_first(), net);
        let i = choose|i: int|
            0 <= i < cs.drop_first().len() && ((#[trigger] cs.drop_first()[i]) matches
                CmdView::ZiReq { nets } && nets.contains(net));
        assert(cs[i + 1] == cs.drop_first()[i]);
    }
}

/// Law: at the end every connection that is served, and not on its way down
/// already, gets an RD with code -1 under the next number.
pub proof fn law_the_end_is_announced(p: PeerView, now: u64)
    ensures
        p.sender != Sender::Unconnected && p.sender != Sender::WaitRdAck ==> p.shut_acts().len() == 1
            && says_to(
            p.shut_acts()[0],
            p,
            p.conn_remote,
            following(p.seq_send) as u16,
            CmdView::Rd { code: -1i16 },
        ) && p.shut(now).sender == Sender::WaitRdAck && p.shut(now).outstanding is Some,
        p.sender == Sender::Unconnected || p.sender == Sender::WaitRdAck ==> p.shut(now) == p
            && p.shut_acts().len() == 0,
{
    lemma_says(
        p,
        p.conn_remote,
        following(p.seq_send) as u16,
        CmdView::Rd { code: -1i16 },
    );
}

// ---------------------------------------------------------- what peers are told

/// A route by a port of ours, near enough to tell of.
pub open spec fn tellable(r: Option<Route>) -> bool {
    r matches Some(x) && x.target is Port && x.distance < 15
}

/// Law: a change in our own internet is told: a network that becomes one of
/// ours, with its zones known, as event 1 with its tuple; one that ceases to be
/// as event 2, or event 3 where a tunnel takes it over; another distance as
/// event 4. What is behind a tunnel, before and after, is told to nobody.
pub proof fn law_changes_of_our_internet_are_told(c: RouteChange, v: TablesView)
    ensures
        ({
            let was = tellable(c.old);
            let will = tellable(c.new) && zones_known(v, c.new->0.range.0);
            let e = event_for(c, v);
            let tuple = |r: Route, d: u8|
                NetworkTuple { range: r.range, extended: r.extended, distance: d };
            &&& !was && !will ==> e is None
            &&& !was && will ==> e == Some(
                EventTuple { code: 1, tuple: tuple(c.new->0, c.new->0.distance) },
            )
            &&& was && !will && (c.new matches Some(r) && r.target is Peer) ==> e == Some(
                EventTuple { code: 3, tuple: tuple(c.old->0, 0) },
            )
            &&& was && !will && !(c.new matches Some(r) && r.target is Peer) ==> e == Some(
                EventTuple { code: 2, tuple: tuple(c.old->0, 0) },
            )
            &&& was && will && c.old->0.distance != c.new->0.distance ==> e == Some(
                EventTuple { code: 4, tuple: tuple(c.new->0, c.new->0.distance) },
            )
            &&& was && will && c.old->0.distance == c.new->0.distance ==> e is None
        }),
{
}

/// Law: a change that is worth an event is pending for every peer that is
/// served, and for no other; what else is pending there stays.
pub proof fn law_served_peers_are_told(ps: Seq<PeerView>, c: RouteChange, v: TablesView, i: int)
    requires
        0 <= i < ps.len(),
    ensures
        ({
            let n = informed(ps, seq![c], v);
            &&& n.len() == ps.len()
            &&& ps[i].sender == Sender::Unconnected || event_for(c, v) is None ==> n[i] == ps[i]
            &&& ps[i].sender != Sender::Unconnected ==> (event_for(c, v) matches Some(e) ==> n[i]
                == (PeerView { pending: collapsed(ps[i].pending, e), ..ps[i] }))
        }),
{
    assert(seq![c].drop_last() =~= Seq::empty());
    reveal_with_fuel(informed, 2);
}

/// Law: an event joins what is pending. For a network with nothing pending it
/// is added as it is. An addition taken back is nothing; an addition at another
/// distance is that addition; a network taken away and added again is a change
/// of distance; otherwise the later event stands for the earlier. Events of
/// other networks stay.
pub proof fn law_events_join(es: Seq<EventTuple>, e: EventTuple)
    requires
        one_each(es),
    ensures
        ({
            let n = collapsed(es, e);
            let start = e.tuple.range.0;
            &&& forall|x: EventTuple|
                x.tuple.range.0 != start ==> #[trigger] n.contains(x) == es.contains(x)
            &&& (forall|i: int| 0 <= i < es.len() ==> (#[trigger] es[i]).tuple.range.0 != start)
                ==> n == es.push(e)
            &&& forall|i: int|
                0 <= i < es.len() && (#[trigger] es[i]).tuple.range.0 == start ==> {
                    let was = es[i].code;
                    let gone = was == 1 && (e.code == 2 || e.code == 3);
                    &&& gone ==> forall|x: EventTuple| #[trigger]
                        n.contains(x) ==> x.tuple.range.0 != start
                    &&& !gone ==> n.contains(
                        EventTuple {
                            code: if was == 1 && e.code == 4 {
                                1
                            } else if (was == 2 || was == 3) && e.code == 1 {
                                4
                            } else {
                                e.code
                            },
                            tuple: e.tuple,
                        },
                    )
                }
        }),
{
    let n = collapsed(es, e);
    let start = e.tuple.range.0;
    lemma_pending_for(es, start);
    match pending_for(es, start) {
        None => {
            assert forall|x: EventTuple| x.tuple.range.0 != start implies #[trigger] n.contains(x)
                == es.contains(x) by {
                if es.contains(x) {
                    let k = choose|k: int| 0 <= k < es.len() && es[k] == x;
                    assert(n[k] == x);
                }
                if n.contains(x) {
                    let k = choose|k: int| 0 <= k < n.len() && n[k] == x;
                    assert(es[k] == x);
                }
            }
        },
        Some(j) => {
            assert forall|x: EventTuple| x.tuple.range.0 != start implies #[trigger] n.contains(x)
                == es.contains(x) by {
                if es.contains(x) {
                    let k = choose|k: int| 0 <= k < es.len() && es[k] == x;
                    if n.len() < es.len() {
                        assert(n[if k < j {
                            k
                        } else {
                            k - 1
                        }] == x);
                    } else {
                        assert(n[k] == x);
                    }
                }
                if n.contains(x) {
                    let k = choose|k: int| 0 <= k < n.len() && n[k] == x;
                    if n.len() < es.len() {
                        assert(es[if k < j {
                            k
                        } else {
                            k + 1
                        }] == x);
                    } else {
                        assert(es[k] == x);
                    }
                }
            }
            assert forall|i: int|
                0 <= i < es.len() && (#[trigger] es[i]).tuple.range.0 == start implies i == j by {
                if i < j {
                    assert(es[i].tuple.range.0 != es[j].tuple.range.0);
                } else if j < i {
                    assert(es[j].tuple.range.0 != es[i].tuple.range.0);
                }
            }
            let gone = es[j].code == 1 && (e.code == 2 || e.code == 3);
            if gone {
                assert forall|x: EventTuple| #[trigger] n.contains(x) implies x.tuple.range.0
                    != start by {
                    let k = choose|k: int| 0 <= k < n.len() && n[k] == x;
                    let m = if k < j {
                        k
                    } else {
                        k + 1
                    };
                    assert(es[m] == x);
                }
            } else {
                assert(n.contains(n[j]));
            }
        },
    }
}

// -------------------------------------------------------------------- the peers

/// Law: a routing packet of a known peer is handled by that peer, which is
/// called from then on what it calls itself; the other peers stay as they are,
/// and nothing is handed on.
pub proof fn law_a_packet_is_its_peers(
    v: PeersView,
    from: Ipv4Addr,
    bytes: Seq<u8>,
    tables: TablesView,
    now: u64,
    i: int,
)
    requires
        sound(v),
        0 <= i < v.peers.len(),
        v.peers[i].addr == from,
    ensures
        ({
            let o = v.packet(from, bytes, tables, now);
            match AurpView::parse(bytes) {
                Some(AurpView::Routing { dh, conn, seq, cmd }) => {
                    let q = PeerView {
                        di: match dh.src {
                            Di::Null => Di::Ip(from),
                            d => d,
                        },
                        ..v.peers[i]
                    };
                    let s = q.routing(conn, seq, cmd, tables, now);
                    &&& o.peers.peers == v.peers.update(i, s.peer)
                    &&& o.tables == s.tables && o.acts == s.acts && o.chs == s.chs && o.ddp is None
                },
                Some(AurpView::Data { .. }) => o.tables == tables && o.acts.len() == 0
                    && o.chs.len() == 0 && o.peers.peers.len() == v.peers.len(),
                None => o.peers == v && o.tables == tables && o.acts.len() == 0 && o.ddp is None,
            }
        }),
{
    crate::router::peers::lemma_find(v.peers, from);
    let k = find(v.peers, from);
    if k >= 0 {
        if k < i {
            assert(v.peers[k].addr.key() < v.peers[i].addr.key());
        } else if i < k {
            assert(v.peers[i].addr.key() < v.peers[k].addr.key());
        }
    }
}

/// Law: where peering is open and there is room, a stranger's first packet makes
/// it a peer, which handles it; where it is not, the stranger is only named in
/// the log, once a minute at most.
pub proof fn law_strangers_are_let_in_or_logged(
    v: PeersView,
    from: Ipv4Addr,
    bytes: Seq<u8>,
    tables: TablesView,
    now: u64,
)
    requires
        sound(v),
        forall|i: int| 0 <= i < v.peers.len() ==> (#[trigger] v.peers[i]).addr != from,
        AurpView::parse(bytes) is Some,
    ensures
        ({
            let o = v.packet(from, bytes, tables, now);
            let room = crate::router::peers::strangers(v.peers) < 256;
            &&& v.open_peering && room ==> exists|i: int|
                0 <= i < o.peers.peers.len() && (#[trigger] o.peers.peers[i]).addr == from
                    && o.peers.peers[i].configured is None
            &&& !v.open_peering || !room ==> o.peers.peers == v.peers && o.tables == tables
                && o.ddp is None && o.chs.len() == 0 && o.acts.len() <= 1 && (o.acts.len() == 1
                ==> o.acts[0] is Log)
            &&& (!v.open_peering || !room) && (v.logged.contains_key(from.key() as u32) && now
                - v.logged[from.key() as u32] < 60000) ==> o.acts.len() == 0
            &&& (!v.open_peering || !room) && (!v.logged.contains_key(from.key() as u32) || now
                - v.logged[from.key() as u32] >= 60000) ==> o.acts.len() == 1
                && o.peers.logged.contains_key(from.key() as u32)
                && o.peers.logged[from.key() as u32] == now
        }),
{
    crate::router::peers::lemma_find(v.peers, from);
    let k = find(v.peers, from);
    assert(k < 0) by {
        if k >= 0 {
            assert(v.peers[k].addr != from);
        }
    }
    if v.open_peering && crate::router::peers::strangers(v.peers) < 256 {
        crate::router::peers::lemma_slot(v.peers, from);
        let at = crate::router::peers::slot(v.peers, from) as int;
        let w = v.joined(None, from, now);
        let o = v.packet(from, bytes, tables, now);
        assert(w.peers[at].addr == from && w.peers[at].configured is None);
        if let Some(AurpView::Routing { dh, conn, seq, cmd }) = AurpView::parse(bytes) {
            let q = PeerView {
                di: crate::router::aurp::called(dh.src, from),
                ..w.peers[at]
            };
            crate::router::tunnel_laws::law_routing_keeps_balance(q, conn, seq, cmd, tables, now);
        }
        assert(o.peers.peers[at].addr == from);
    }
}

/// Law: the clock looks for connections to open every ten seconds, and for
/// zones to ask about every thirty.
pub proof fn law_the_clock_keeps_its_pace(v: PeersView, tables: TablesView, now: u64)
    ensures
        ({
            let n = v.ticked(tables, now).peers;
            &&& n.last_scan == (if now - v.last_scan >= 10000 {
                now
            } else {
                v.last_scan
            })
            &&& n.last_zi == (if now - v.last_zi >= 30000 {
                now
            } else {
                v.last_zi
            })
        }),
{
}

/// Law: a peer found behind a name is kept under it: there is one at the
/// address, configured by the name.
pub proof fn law_a_resolved_name_is_a_peer(v: PeersView, name: Seq<char>, a: Ipv4Addr, now: u64)
    requires
        sound(v),
    ensures
        exists|i: int|
            0 <= i < v.resolved(name, a, now).peers.len() && (#[trigger] v.resolved(
                name,
                a,
                now,
            ).peers[i]).addr == a && v.resolved(name, a, now).peers[i].configured == Some(name),
{
    crate::router::peers::lemma_find(v.peers, a);
    let n = v.resolved(name, a, now);
    let k = find(v.peers, a);
    if k >= 0 {
        assert(n.peers[k].addr == a && n.peers[k].configured == Some(name));
    } else {
        let ps = crate::router::peers::unnamed(v.peers, name);
        crate::router::peers::lemma_slot(ps, a);
        let at = crate::router::peers::slot(ps, a) as int;
        assert(n.peers[at].addr == a && n.peers[at].configured == Some(name));
    }
}

/// Law: at the end every peer we serve is told of it.
pub proof fn law_every_peer_is_told_of_the_end(ps: Seq<PeerView>, i: int)
    requires
        0 <= i < ps.len(),
        ps[i].sender != Sender::Unconnected,
        ps[i].sender != Sender::WaitRdAck,
    ensures
        exists|k: int|
            0 <= k < all_shut_acts(ps).len() && says_to(
                #[trigger] all_shut_acts(ps)[k],
                ps[i],
                ps[i].conn_remote,
                following(ps[i].seq_send) as u16,
                CmdView::Rd { code: -1i16 },
            ),
    decreases ps.len(),
{
    let a = ps.drop_last();
    let all = all_shut_acts(ps);
    let most = all_shut_acts(a);
    if i < a.len() {
        assert(a[i] == ps[i]);
        law_every_peer_is_told_of_the_end(a, i);
        let k = choose|k: int|
            0 <= k < most.len() && says_to(
                #[trigger] most[k],
                ps[i],
                ps[i].conn_remote,
                following(ps[i].seq_send) as u16,
                CmdView::Rd { code: -1i16 },
            );
        assert(all[k] == most[k]);
    } else {
        law_the_end_is_announced(ps[i], 0);
        assert(all[most.len() as int] == ps[i].shut_acts()[0]);
    }
}

} // verus!
