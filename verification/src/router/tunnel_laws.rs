//! Laws of the AURP peers: what every packet and every tick keeps.

use vstd::prelude::*;

use crate::addr::lemma_key_identifies;
use crate::router::aurp::{applied, applied_all, collapsed, dropped, learned, learned_all, pending_for, pred_of, since, succ_of, zones_added, PeerView, Receiver, Sender, NA, ND, NRC, RETRIES, RETRY, TICKLE_RETRIES};
use crate::router::pages::law_tuple_pages;
use crate::router::peers::{all_shut, event_for, expired, find, informed, lemma_find, lemma_slot, ordered, round, slot, strangers, swept, unnamed, PeersView};
use crate::router::table::{routes_without, Route, RouteChange, TablesView};
use crate::router::table_laws;
use crate::router::table_laws::{consistent, ranges_apart};
use crate::router::{ActionView, Target};
use crate::wire::aurp::{one_datagram, AurpView, CmdView, EventTuple};
use crate::wire::aurp_laws;
use crate::wire::{Ipv4Addr, NetworkTuple};

verus! {

// ------------------------------------------------------------------ numbers

/// Law: sequence numbers and connection IDs are never 0, and the step back
/// undoes the step forward.
pub proof fn law_numbers_skip_zero(n: u16)
    ensures
        succ_of(n) != 0 && pred_of(n) != 0,
        succ_of(n) != n,
        n != 0 ==> pred_of(succ_of(n)) == n && succ_of(pred_of(n)) == n,
{
}

// ------------------------------------------------------------- the two halves

/// A sequenced packet is out exactly while its ack is awaited.
pub open spec fn balanced(p: PeerView) -> bool {
    p.outstanding is Some <==> p.sender == Sender::WaitRiRspAck || p.sender
        == Sender::WaitRiUpdAck || p.sender == Sender::WaitRdAck
}

/// Law: after any routing packet, a sequenced packet of ours is out exactly
/// while we wait for its ack, no network has two events pending, and the peer
/// keeps its address.
#[verifier::spinoff_prover]
#[verifier::rlimit(60)]
pub proof fn law_routing_keeps_balance(
    p: PeerView,
    conn: u16,
    seq: u16,
    cmd: CmdView,
    tables: TablesView,
    now: u64,
)
    requires
        balanced(p),
    ensures
        balanced(p.routing(conn, seq, cmd, tables, now).peer),
        one_each(p.pending) ==> one_each(p.routing(conn, seq, cmd, tables, now).peer.pending),
        p.routing(conn, seq, cmd, tables, now).peer.addr == p.addr,
        p.routing(conn, seq, cmd, tables, now).peer.configured == p.configured,
{
    reveal(PeerView::routing);
    law_tuple_pages(tables.export());
}

/// Law: the clock keeps that balance, the pending events apart, and the
/// peer's address.
pub proof fn law_tick_keeps_balance(
    p: PeerView,
    tables: TablesView,
    scan: bool,
    zi: bool,
    now: u64,
)
    requires
        balanced(p),
    ensures
        balanced(p.ticked(tables, scan, zi, now).peer),
        one_each(p.pending) ==> one_each(p.ticked(tables, scan, zi, now).peer.pending),
        p.ticked(tables, scan, zi, now).peer.addr == p.addr,
        p.ticked(tables, scan, zi, now).peer.configured == p.configured,
{
}

/// Law: shutting down keeps that balance, and leaves no connection that is
/// served without an RD out.
pub proof fn law_shutdown_keeps_balance(p: PeerView, now: u64)
    requires
        balanced(p),
    ensures
        balanced(p.shut(now)),
        p.shut(now).sender == Sender::Unconnected || p.shut(now).sender == Sender::WaitRdAck,
        p.shut(now).addr == p.addr,
{
}

/// Law: whoever has no connection to us as data sender gets nothing back for
/// asking, and changes nothing.
pub proof fn law_strangers_get_nothing(
    p: PeerView,
    conn: u16,
    seq: u16,
    cmd: CmdView,
    tables: TablesView,
    now: u64,
)
    requires
        p.sender == Sender::Unconnected,
        cmd is ZiReq || cmd is GznReq || cmd is GdzlReq || cmd is Tickle || cmd is RiReq,
    ensures
        p.routing(conn, seq, cmd, tables, now) == p.quiet(tables),
{
    reveal(PeerView::routing);
}

/// Law: everything but an Open-Req that carries neither of the two connection
/// IDs is discarded.
pub proof fn law_wrong_connection_is_discarded(
    p: PeerView,
    conn: u16,
    seq: u16,
    cmd: CmdView,
    tables: TablesView,
    now: u64,
)
    requires
        conn != p.conn_local,
        conn != p.conn_remote,
        !(cmd is OpenReq),
    ensures
        p.routing(conn, seq, cmd, tables, now) == p.quiet(tables),
{
    reveal(PeerView::routing);
}

/// Law: a transaction that carries a sequence number is discarded.
pub proof fn law_sequenced_transactions_are_discarded(
    p: PeerView,
    conn: u16,
    seq: u16,
    cmd: CmdView,
    tables: TablesView,
    now: u64,
)
    requires
        cmd.transaction(),
        seq != 0,
    ensures
        p.routing(conn, seq, cmd, tables, now) == p.quiet(tables),
{
    reveal(PeerView::routing);
}

/// Sequenced data from the peer.
pub open spec fn sequenced_data(cmd: CmdView) -> bool {
    cmd is RiRsp || cmd is RiUpd || cmd is Rd
}

/// Law: a repeat of the last sequenced packet is acknowledged again under its
/// own number, and nothing is learned or forgotten over it.
pub proof fn law_repeats_are_acked_and_not_applied(
    p: PeerView,
    seq: u16,
    cmd: CmdView,
    tables: TablesView,
    now: u64,
)
    requires
        sequenced_data(cmd),
        p.receives(),
        p.seq_recv != 0,
        seq == pred_of(p.seq_recv),
    ensures
        ({
            let s = p.routing(p.conn_local, seq, cmd, tables, now);
            &&& s.tables == tables && s.chs == Seq::<RouteChange>::empty()
            &&& s.peer == (PeerView { last_heard: s.peer.last_heard, ..p })
            &&& s.acts == seq![
                p.send(p.conn_local, seq, CmdView::RiAck { szi: !(cmd is Rd) }),
            ]
        }),
{
    reveal(PeerView::routing);
}

/// Law: a sequenced packet one too far ahead closes our end without an answer,
/// and the next connection we ask for has another ID.
pub proof fn law_gaps_close_the_receiver(
    p: PeerView,
    seq: u16,
    cmd: CmdView,
    tables: TablesView,
    now: u64,
)
    requires
        sequenced_data(cmd),
        p.receives(),
        p.seq_recv != 0,
        seq == succ_of(p.seq_recv),
    ensures
        ({
            let s = p.routing(p.conn_local, seq, cmd, tables, now);
            &&& s.tables == tables && s.acts == Seq::<ActionView>::empty()
            &&& s.peer.receiver == Receiver::Unconnected
            &&& s.peer.conn_local == succ_of(p.conn_local) && s.peer.conn_local != p.conn_local
        }),
{
    reveal(PeerView::routing);
}

/// Law: sequenced data that is neither the next, nor the last, nor one ahead
/// changes no table and is not answered.
pub proof fn law_stale_data_is_discarded(
    p: PeerView,
    seq: u16,
    cmd: CmdView,
    tables: TablesView,
    now: u64,
)
    requires
        sequenced_data(cmd),
        p.receives(),
        seq == 0 || (seq != p.seq_recv && seq != pred_of(p.seq_recv) && seq != succ_of(
            p.seq_recv,
        )),
    ensures
        ({
            let s = p.routing(p.conn_local, seq, cmd, tables, now);
            &&& s.tables == tables && s.acts == Seq::<ActionView>::empty()
            &&& s.chs == Seq::<RouteChange>::empty()
            &&& s.peer == (PeerView { last_heard: s.peer.last_heard, ..p })
        }),
{
    reveal(PeerView::routing);
}

/// Law: a sequenced packet of ours goes out again byte for byte, up to five
/// times in all, and then the connection is given up.
pub proof fn law_retransmissions_are_identical(p: PeerView, tables: TablesView, now: u64)
    requires
        p.outstanding matches Some(o) && since(now, o.at) >= RETRY,
    ensures
        ({
            let o = p.outstanding->0;
            let s = p.sender_ticked(tables, now);
            if o.tries < RETRIES {
                &&& s.acts == seq![ActionView::ToPeer { peer: p.addr, bytes: o.bytes }]
                &&& s.peer.outstanding matches Some(n)
                &&& n.bytes == o.bytes && n.seq == o.seq && n.tries == o.tries + 1 && n.at == now
            } else {
                s.acts.len() == 0 && s.peer.sender == Sender::Unconnected
            }
        }),
{
}

/// Law: a peer that leaves its last tickle unanswered loses its routes and our
/// connection to it.
pub proof fn law_silence_drops_the_routes(p: PeerView, tables: TablesView, now: u64)
    requires
        consistent(tables),
        p.receiver == Receiver::WaitTickleAck,
        p.recv_tries >= TICKLE_RETRIES,
        since(now, p.recv_at) >= RETRY,
    ensures
        ({
            let s = p.receiver_ticked(tables, now);
            &&& s.peer.receiver == Receiver::Unconnected
            &&& forall|r: Route| #[trigger]
                s.tables.routes.contains(r) ==> r.target != Target::Peer(p.addr)
        }),
{
    table_laws::law_remove_target(tables, Target::Peer(p.addr));
}

// ------------------------------------------------------------ pending events

/// No network has two events pending.
pub open spec fn one_each(es: Seq<EventTuple>) -> bool {
    forall|i: int, j: int|
        0 <= i < j < es.len() ==> (#[trigger] es[i]).tuple.range.0 != (
        #[trigger] es[j]).tuple.range.0
}

/// Where a network's pending event is.
pub proof fn lemma_pending_for(es: Seq<EventTuple>, start: u16)
    ensures
        match pending_for(es, start) {
            Some(i) => 0 <= i < es.len() && es[i].tuple.range.0 == start,
            None => forall|i: int| 0 <= i < es.len() ==> (#[trigger] es[i]).tuple.range.0 != start,
        },
    decreases es.len(),
{
    if es.len() > 0 {
        let a = es.drop_last();
        lemma_pending_for(a, start);
        if pending_for(es, start) is None {
            assert forall|i: int| 0 <= i < es.len() implies (#[trigger] es[i]).tuple.range.0
                != start by {
                if i < a.len() {
                    assert(es[i] == a[i]);
                }
            }
        }
    }
}

/// Law: events collapse, so that no network ever has two pending.
pub proof fn law_one_event_per_network(es: Seq<EventTuple>, ev: EventTuple)
    requires
        one_each(es),
    ensures
        one_each(collapsed(es, ev)),
{
    lemma_pending_for(es, ev.tuple.range.0);
}

/// Law: a network that appears and goes again before the peer was told of it
/// leaves nothing to tell.
pub proof fn law_added_then_deleted_is_nothing(es: Seq<EventTuple>, t: NetworkTuple, u: NetworkTuple)
    requires
        one_each(es),
        t.range.0 == u.range.0,
        pending_for(es, t.range.0) is None,
    ensures
        collapsed(collapsed(es, EventTuple { code: NA, tuple: t }), EventTuple { code: ND, tuple: u })
            == es,
        collapsed(
            collapsed(es, EventTuple { code: NA, tuple: t }),
            EventTuple { code: NRC, tuple: u },
        ) == es,
{
    let one = es.push(EventTuple { code: NA, tuple: t });
    assert(one.drop_last() =~= es);
    assert(one.last() == EventTuple { code: NA, tuple: t });
    assert(one.remove(es.len() as int) =~= es);
}

// ----------------------------------------------------------------- the tables

/// The routes through anyone but `t` are the same.
pub open spec fn others_same(v: TablesView, n: TablesView, t: Target) -> bool {
    forall|r: Route|
        #![trigger n.routes.contains(r)]
        r.target != t ==> (n.routes.contains(r) <==> v.routes.contains(r))
}

/// What the tables keep whatever a peer says.
pub open spec fn kept(v: TablesView, n: TablesView, a: Ipv4Addr) -> bool {
    &&& consistent(v) && ranges_apart(v.routes) ==> consistent(n) && ranges_apart(n.routes)
    &&& others_same(v, n, Target::Peer(a))
}

proof fn lemma_kept_then(v: TablesView, m: TablesView, n: TablesView, a: Ipv4Addr)
    requires
        kept(v, m, a),
        kept(m, n, a),
    ensures
        kept(v, n, a),
{
    let t = Target::Peer(a);
    assert forall|r: Route|
        #![trigger n.routes.contains(r)]
        r.target != t implies (n.routes.contains(r) <==> v.routes.contains(r)) by {
        assert(m.routes.contains(r) <==> v.routes.contains(r));
    }
}

proof fn lemma_learned_kept(v: TablesView, x: NetworkTuple, a: Ipv4Addr, now: u64)
    ensures
        kept(v, learned(v, x, a, now).0, a),
{
    let t = Target::Peer(a);
    let next = crate::router::aurp::no_next();
    let n = learned(v, x, a, now).0;
    if consistent(v) && ranges_apart(v.routes) {
        table_laws::law_learn_keeps(v, x, t, next, now);
    }
    table_laws::lemma_find(v.routes, x.range, t, next);
    assert forall|r: Route|
        #![trigger n.routes.contains(r)]
        r.target != t implies (n.routes.contains(r) <==> v.routes.contains(r)) by {
        if v.routes.contains(r) {
            let i = choose|i: int| 0 <= i < v.routes.len() && v.routes[i] == r;
            assert(n.routes[i] == r);
        }
        if n.routes.contains(r) {
            let i = choose|i: int| 0 <= i < n.routes.len() && n.routes[i] == r;
            assert(v.routes[i] == r);
        }
    }
}

proof fn lemma_dropped_kept(v: TablesView, a: Ipv4Addr, start: u16)
    ensures
        kept(v, dropped(v, a, start).0, a),
{
    let t = Target::Peer(a);
    if consistent(v) && ranges_apart(v.routes) {
        table_laws::law_remove_keeps(v, t, start);
    }
    table_laws::lemma_without(v.routes, t, Some(start));
    let n = dropped(v, a, start).0;
    assert(n.routes == routes_without(v.routes, t, Some(start)));
}

proof fn lemma_moved_kept(v: TablesView, a: Ipv4Addr, start: u16, d: u8, now: u64)
    ensures
        kept(v, v.set_distance(Target::Peer(a), start, d, now), a),
{
    let t = Target::Peer(a);
    let n = v.set_distance(t, start, d, now);
    if consistent(v) && ranges_apart(v.routes) {
        table_laws::law_set_distance_keeps(v, t, start, d, now);
    }
    assert forall|r: Route|
        #![trigger n.routes.contains(r)]
        r.target != t implies (n.routes.contains(r) <==> v.routes.contains(r)) by {
        if v.routes.contains(r) {
            let i = choose|i: int| 0 <= i < v.routes.len() && v.routes[i] == r;
            assert(n.routes[i] == r);
        }
        if n.routes.contains(r) {
            let i = choose|i: int| 0 <= i < n.routes.len() && n.routes[i] == r;
            assert(v.routes[i] == r);
        }
    }
}

proof fn lemma_gone_kept(v: TablesView, a: Ipv4Addr)
    ensures
        kept(v, v.remove_target(Target::Peer(a)), a),
{
    let t = Target::Peer(a);
    if consistent(v) && ranges_apart(v.routes) {
        table_laws::law_remove_target_keeps(v, t);
    }
    table_laws::lemma_without(v.routes, t, None);
    assert(v.remove_target(t).routes == routes_without(v.routes, t, None));
}

proof fn lemma_learned_all_kept(v: TablesView, ts: Seq<NetworkTuple>, a: Ipv4Addr, now: u64)
    ensures
        kept(v, learned_all(v, ts, a, now).0, a),
    decreases ts.len(),
{
    if ts.len() > 0 {
        let m = learned_all(v, ts.drop_last(), a, now).0;
        lemma_learned_all_kept(v, ts.drop_last(), a, now);
        lemma_learned_kept(m, ts.last(), a, now);
        lemma_kept_then(v, m, learned(m, ts.last(), a, now).0, a);
    }
}

proof fn lemma_applied_all_kept(v: TablesView, es: Seq<EventTuple>, a: Ipv4Addr, now: u64)
    ensures
        kept(v, applied_all(v, es, a, now).0, a),
    decreases es.len(),
{
    if es.len() > 0 {
        let m = applied_all(v, es.drop_last(), a, now).0;
        let e = es.last();
        lemma_applied_all_kept(v, es.drop_last(), a, now);
        lemma_learned_kept(m, e.tuple, a, now);
        lemma_dropped_kept(m, a, e.tuple.range.0);
        lemma_moved_kept(m, a, e.tuple.range.0, (e.tuple.distance + 1) as u8, now);
        assert(kept(m, m, a));
        lemma_kept_then(v, m, applied(m, e, a, now).0, a);
    }
}

proof fn lemma_zones_kept(
    v: TablesView,
    nets: Seq<u16>,
    zs: Seq<(u16, Seq<char>)>,
    extended: Option<u16>,
    a: Ipv4Addr,
)
    ensures
        kept(v, zones_added(v, nets, zs, extended).0, a),
    decreases nets.len(),
{
    if nets.len() > 0 {
        let m = zones_added(v, nets.drop_last(), zs, extended).0;
        lemma_zones_kept(v, nets.drop_last(), zs, extended, a);
        let names = crate::router::aurp::names_for(zs, nets.last());
        let total = crate::router::aurp::total_of(extended);
        if consistent(m) {
            table_laws::law_add_zones_keeps(m, nets.last(), names, total);
        }
        let n = m.add_zones(nets.last(), names, total);
        assert(n.routes == m.routes);
        assert(kept(m, n, a));
        lemma_kept_then(v, m, zones_added(v, nets, zs, extended).0, a);
    }
}

/// Law: whatever a peer says, the tables stay consistent, no two ranges come
/// to overlap, and no route but the peer's own is touched.
#[verifier::spinoff_prover]
#[verifier::rlimit(60)]
pub proof fn law_a_peer_touches_only_its_own_routes(
    p: PeerView,
    conn: u16,
    seq: u16,
    cmd: CmdView,
    tables: TablesView,
    now: u64,
)
    ensures
        kept(tables, p.routing(conn, seq, cmd, tables, now).tables, p.addr),
{
    reveal(PeerView::routing);
    let s = p.routing(conn, seq, cmd, tables, now);
    assert(kept(tables, tables, p.addr));
    match cmd {
        CmdView::RiRsp { tuples, .. } => {
            lemma_learned_all_kept(tables, tuples, p.addr, now);
        },
        CmdView::RiUpd { events } => {
            lemma_applied_all_kept(tables, events, p.addr, now);
        },
        CmdView::Rd { .. } => {
            lemma_gone_kept(tables, p.addr);
        },
        CmdView::ZiRsp { extended, zones } => {
            lemma_zones_kept(
                tables,
                crate::router::aurp::nets_named(zones),
                zones,
                extended,
                p.addr,
            );
        },
        _ => {
            assert(s.tables == tables);
        },
    }
}

/// Law: whatever the clock does to a peer, the tables stay consistent, no two
/// ranges come to overlap, and no route but the peer's own is touched.
pub proof fn law_the_clock_touches_only_the_peers_routes(
    p: PeerView,
    tables: TablesView,
    scan: bool,
    zi: bool,
    now: u64,
)
    ensures
        kept(tables, p.ticked(tables, scan, zi, now).tables, p.addr),
{
    lemma_gone_kept(tables, p.addr);
    assert(kept(tables, tables, p.addr));
}

// ------------------------------------------------------------------ the peers

/// Every peer in order, with its connections in balance and one event pending
/// for a network at most.
pub open spec fn sound(v: PeersView) -> bool {
    &&& ordered(v.peers)
    &&& forall|i: int|
        0 <= i < v.peers.len() ==> balanced(#[trigger] v.peers[i]) && one_each(v.peers[i].pending)
}

/// The slot of an address parts the peers before it from those after.
proof fn lemma_slot_parts(ps: Seq<PeerView>, a: Ipv4Addr)
    requires
        ordered(ps),
    ensures
        slot(ps, a) <= ps.len(),
        forall|i: int| 0 <= i < slot(ps, a) ==> (#[trigger] ps[i]).addr.key() < a.key(),
        forall|i: int| slot(ps, a) <= i < ps.len() ==> (#[trigger] ps[i]).addr.key() >= a.key(),
    decreases ps.len(),
{
    if ps.len() > 0 {
        let b = ps.drop_last();
        assert forall|i: int, j: int| 0 <= i < j < b.len() implies (#[trigger] b[i]).addr.key() < (
        #[trigger] b[j]).addr.key() by {
            assert(b[i] == ps[i] && b[j] == ps[j]);
        }
        lemma_slot_parts(b, a);
        let last = ps[ps.len() - 1];
        assert forall|i: int| 0 <= i < b.len() implies (#[trigger] ps[i]).addr.key()
            < last.addr.key() by {}
        assert forall|i: int| 0 <= i < slot(ps, a) implies (#[trigger] ps[i]).addr.key()
            < a.key() by {
            if i < b.len() {
                assert(ps[i] == b[i]);
            }
        }
        assert forall|i: int| slot(ps, a) <= i < ps.len() implies (#[trigger] ps[i]).addr.key()
            >= a.key() by {
            if i < b.len() {
                assert(ps[i] == b[i]);
            }
        }
        if last.addr.key() < a.key() && slot(b, a) < b.len() {
            assert(b[slot(b, a) as int] == ps[slot(b, a) as int]);
        }
    }
}

/// What is left of the peers is some of them, in order.
proof fn lemma_unnamed(ps: Seq<PeerView>, name: Seq<char>)
    ensures
        forall|i: int|
            0 <= i < unnamed(ps, name).len() ==> ps.contains(#[trigger] unnamed(ps, name)[i]),
        ordered(ps) ==> ordered(unnamed(ps, name)),
    decreases ps.len(),
{
    if ps.len() > 0 {
        let b = ps.drop_last();
        let u = unnamed(b, name);
        let w = unnamed(ps, name);
        lemma_unnamed(b, name);
        assert forall|i: int| 0 <= i < w.len() implies ps.contains(#[trigger] w[i]) by {
            if i < u.len() {
                assert(w[i] == u[i]);
                assert(b.contains(u[i]));
                let k = choose|k: int| 0 <= k < b.len() && b[k] == u[i];
                assert(ps[k] == w[i]);
            } else {
                assert(w[i] == ps[ps.len() - 1]);
            }
        }
        if ordered(ps) {
            assert forall|i: int, j: int| 0 <= i < j < b.len() implies (#[trigger] b[i]).addr.key()
                < (#[trigger] b[j]).addr.key() by {
                assert(b[i] == ps[i] && b[j] == ps[j]);
            }
            assert forall|i: int, j: int| 0 <= i < j < w.len() implies (#[trigger] w[i]).addr.key()
                < (#[trigger] w[j]).addr.key() by {
                assert(w[i] == u[i]);
                if j < u.len() {
                    assert(w[j] == u[j]);
                } else {
                    assert(b.contains(u[i]));
                    let k = choose|k: int| 0 <= k < b.len() && b[k] == u[i];
                    assert(ps[k].addr.key() < ps[ps.len() - 1].addr.key());
                }
            }
        }
    }
}

/// A new peer in its slot leaves the peers sound.
proof fn lemma_joined_sound(v: PeersView, name: Option<Seq<char>>, a: Ipv4Addr, now: u64)
    requires
        sound(v),
        forall|i: int| 0 <= i < v.peers.len() ==> (#[trigger] v.peers[i]).addr != a,
    ensures
        sound(v.joined(name, a, now)),
        v.joined(name, a, now).peers.len() == v.peers.len() + 1,
        slot(v.peers, a) <= v.peers.len(),
        v.joined(name, a, now).peers[slot(v.peers, a) as int].addr == a,
{
    let ps = v.peers;
    let n = v.joined(name, a, now).peers;
    let at = slot(ps, a) as int;
    lemma_slot_parts(ps, a);
    assert forall|i: int, j: int| 0 <= i < j < n.len() implies (#[trigger] n[i]).addr.key() < (
    #[trigger] n[j]).addr.key() by {
        let x = if i < at {
            i
        } else {
            i - 1
        };
        let y = if j < at {
            j
        } else {
            j - 1
        };
        if i == at {
            assert(n[j] == ps[y]);
            if ps[y].addr.key() == a.key() {
                lemma_key_identifies(ps[y].addr, a);
            }
        } else if j == at {
            assert(n[i] == ps[x]);
        } else {
            assert(n[i] == ps[x] && n[j] == ps[y]);
        }
    }
    assert forall|i: int| 0 <= i < n.len() implies balanced(#[trigger] n[i]) && one_each(
        n[i].pending,
    ) by {
        if i < at {
            assert(n[i] == ps[i]);
        } else if i > at {
            assert(n[i] == ps[i - 1]);
        }
    }
}

/// A peer put in place of itself, at the same address, leaves the peers sound.
proof fn lemma_with_peer_sound(v: PeersView, i: int, p: PeerView)
    requires
        sound(v),
        0 <= i < v.peers.len(),
        p.addr == v.peers[i].addr,
        balanced(p),
        one_each(p.pending),
    ensures
        sound(v.with_peer(i, p)),
{
    let n = v.with_peer(i, p).peers;
    assert forall|x: int, y: int| 0 <= x < y < n.len() implies (#[trigger] n[x]).addr.key() < (
    #[trigger] n[y]).addr.key() by {
        assert(n[x].addr == v.peers[x].addr && n[y].addr == v.peers[y].addr);
    }
    assert forall|x: int| 0 <= x < n.len() implies balanced(#[trigger] n[x]) && one_each(
        n[x].pending,
    ) by {
        if x != i {
            assert(n[x] == v.peers[x]);
        }
    }
}

proof fn lemma_handled(v: PeersView, i: int, pkt: AurpView, tables: TablesView, now: u64)
    requires
        sound(v),
        0 <= i < v.peers.len(),
    ensures
        sound(v.handled(i, pkt, tables, now).peers),
        kept(tables, v.handled(i, pkt, tables, now).tables, v.peers[i].addr),
{
    let p = v.peers[i];
    match pkt {
        AurpView::Data { dh, .. } => {
            lemma_with_peer_sound(
                v,
                i,
                PeerView { di: crate::router::aurp::called(dh.src, p.addr), ..p },
            );
        },
        AurpView::Routing { dh, conn, seq, cmd } => {
            let q = PeerView { di: crate::router::aurp::called(dh.src, p.addr), ..p };
            law_routing_keeps_balance(q, conn, seq, cmd, tables, now);
            law_a_peer_touches_only_its_own_routes(q, conn, seq, cmd, tables, now);
            lemma_with_peer_sound(v, i, q.routing(conn, seq, cmd, tables, now).peer);
        },
    }
}

/// Law: whatever arrives from wherever, the peers stay in order with one at
/// each address, their connections in balance and their pending events apart;
/// the tables stay consistent; and no route is touched but those through the
/// address it came from.
pub proof fn law_packet_keeps(
    v: PeersView,
    from: Ipv4Addr,
    bytes: Seq<u8>,
    tables: TablesView,
    now: u64,
)
    requires
        sound(v),
    ensures
        sound(v.packet(from, bytes, tables, now).peers),
        kept(tables, v.packet(from, bytes, tables, now).tables, from),
{
    lemma_find(v.peers, from);
    assert(kept(tables, tables, from));
    match AurpView::parse(bytes) {
        None => {},
        Some(pkt) => {
            let i = find(v.peers, from);
            if i >= 0 {
                lemma_handled(v, i, pkt, tables, now);
            } else if v.open_peering && strangers(v.peers)
                < crate::router::peers::MAX_STRANGERS {
                lemma_joined_sound(v, None, from, now);
                lemma_handled(
                    v.joined(None, from, now),
                    slot(v.peers, from) as int,
                    pkt,
                    tables,
                    now,
                );
            }
        },
    }
}

/// Law: a name that resolves leaves the peers sound.
pub proof fn law_resolved_keeps(v: PeersView, name: Seq<char>, a: Ipv4Addr, now: u64)
    requires
        sound(v),
    ensures
        sound(v.resolved(name, a, now)),
{
    lemma_find(v.peers, a);
    let i = find(v.peers, a);
    if i >= 0 {
        lemma_with_peer_sound(v, i, PeerView { configured: Some(name), ..v.peers[i] });
    } else {
        lemma_unnamed(v.peers, name);
        let u = PeersView { peers: unnamed(v.peers, name), ..v };
        assert forall|k: int| 0 <= k < u.peers.len() implies balanced(#[trigger] u.peers[k])
            && one_each(u.peers[k].pending) && u.peers[k].addr != a by {
            assert(v.peers.contains(u.peers[k]));
            let j = choose|j: int| 0 <= j < v.peers.len() && v.peers[j] == u.peers[k];
            assert(balanced(v.peers[j]));
        }
        lemma_joined_sound(u, Some(name), a, now);
    }
}

/// What one round of the clock keeps.
proof fn lemma_round(ps: Seq<PeerView>, tables: TablesView, scan: bool, zi: bool, now: u64)
    requires
        forall|i: int|
            0 <= i < ps.len() ==> balanced(#[trigger] ps[i]) && one_each(ps[i].pending),
    ensures
        ({
            let r = round(ps, tables, scan, zi, now);
            &&& r.peers.len() == ps.len()
            &&& forall|i: int|
                0 <= i < ps.len() ==> balanced(#[trigger] r.peers[i]) && one_each(
                    r.peers[i].pending,
                ) && r.peers[i].addr == ps[i].addr && r.peers[i].configured == ps[i].configured
            &&& consistent(tables) && ranges_apart(tables.routes) ==> consistent(r.tables)
                && ranges_apart(r.tables.routes)
        }),
    decreases ps.len(),
{
    if ps.len() > 0 {
        let b = ps.drop_last();
        assert forall|i: int| 0 <= i < b.len() implies balanced(#[trigger] b[i]) && one_each(
            b[i].pending,
        ) by {
            assert(b[i] == ps[i]);
        }
        lemma_round(b, tables, scan, zi, now);
        let q = round(b, tables, scan, zi, now);
        let r = round(ps, tables, scan, zi, now);
        let p = ps.last();
        assert(ps[ps.len() - 1] == p);
        law_tick_keeps_balance(p, q.tables, scan, zi, now);
        law_the_clock_touches_only_the_peers_routes(p, q.tables, scan, zi, now);
        assert forall|i: int| 0 <= i < ps.len() implies balanced(#[trigger] r.peers[i])
            && one_each(r.peers[i].pending) && r.peers[i].addr == ps[i].addr
            && r.peers[i].configured == ps[i].configured by {
            if i < b.len() {
                assert(r.peers[i] == q.peers[i]);
                assert(b[i] == ps[i]);
            }
        }
    }
}

/// What sweeping keeps.
proof fn lemma_swept(ps: Seq<PeerView>, tables: TablesView, now: u64)
    ensures
        ({
            let s = swept(ps, tables, now);
            &&& forall|i: int| 0 <= i < s.peers.len() ==> ps.contains(#[trigger] s.peers[i])
            &&& ordered(ps) ==> ordered(s.peers)
            &&& consistent(tables) && ranges_apart(tables.routes) ==> consistent(s.tables)
                && ranges_apart(s.tables.routes)
            &&& strangers(s.peers) <= strangers(ps)
            &&& forall|i: int| 0 <= i < s.peers.len() ==> !(#[trigger] s.peers[i]).idle(now)
            &&& forall|i: int|
                0 <= i < ps.len() && !ps[i].idle(now) ==> s.peers.contains(#[trigger] ps[i])
        }),
    decreases ps.len(),
{
    if ps.len() > 0 {
        let b = ps.drop_last();
        let p = ps.last();
        lemma_swept(b, tables, now);
        let r = swept(b, tables, now);
        let s = swept(ps, tables, now);
        lemma_gone_kept(r.tables, p.addr);
        assert(ps[ps.len() - 1] == p);
        if !p.idle(now) {
            assert(s.peers.drop_last() =~= r.peers);
            assert(s.peers[r.peers.len() as int] == p);
        }
        assert forall|i: int| 0 <= i < ps.len() && !ps[i].idle(now) implies s.peers.contains(
            #[trigger] ps[i],
        ) by {
            if i < b.len() {
                assert(b[i] == ps[i]);
                let k = choose|k: int| 0 <= k < r.peers.len() && r.peers[k] == b[i];
                assert(s.peers[k] == ps[i]);
            }
        }
        assert forall|i: int| 0 <= i < s.peers.len() implies ps.contains(
            #[trigger] s.peers[i],
        ) by {
            if i < r.peers.len() {
                assert(s.peers[i] == r.peers[i]);
                let k = choose|k: int| 0 <= k < b.len() && b[k] == r.peers[i];
                assert(ps[k] == s.peers[i]);
            }
        }
        if ordered(ps) {
            assert forall|i: int, j: int| 0 <= i < j < b.len() implies (#[trigger] b[i]).addr.key()
                < (#[trigger] b[j]).addr.key() by {
                assert(b[i] == ps[i] && b[j] == ps[j]);
            }
            assert forall|i: int, j: int| 0 <= i < j < s.peers.len() implies (
            #[trigger] s.peers[i]).addr.key() < (#[trigger] s.peers[j]).addr.key() by {
                assert(s.peers[i] == r.peers[i]);
                if j < r.peers.len() {
                    assert(s.peers[j] == r.peers[j]);
                } else {
                    let k = choose|k: int| 0 <= k < b.len() && b[k] == r.peers[i];
                    assert(ps[k].addr.key() < ps[ps.len() - 1].addr.key());
                }
            }
        }
    }
}

/// Law: the clock leaves the peers sound and the tables consistent.
pub proof fn law_tick_keeps(v: PeersView, tables: TablesView, now: u64)
    requires
        sound(v),
        consistent(tables),
        ranges_apart(tables.routes),
    ensures
        sound(v.ticked(tables, now).peers),
        consistent(v.ticked(tables, now).tables),
        ranges_apart(v.ticked(tables, now).tables.routes),
{
    let n = v.ticked(tables, now).peers;
    let scan = since(now, v.last_scan) >= crate::router::peers::RECONNECT_SCAN;
    let zi = since(now, v.last_zi) >= crate::router::peers::ZI_REREQUEST;
    let r = round(v.peers, tables, scan, zi, now);
    lemma_round(v.peers, tables, scan, zi, now);
    assert forall|i: int, j: int| 0 <= i < j < r.peers.len() implies (
    #[trigger] r.peers[i]).addr.key() < (#[trigger] r.peers[j]).addr.key() by {
        assert(r.peers[i].addr == v.peers[i].addr && r.peers[j].addr == v.peers[j].addr);
    }
    lemma_swept(r.peers, r.tables, now);
    assert forall|i: int| 0 <= i < n.peers.len() implies balanced(#[trigger] n.peers[i])
        && one_each(n.peers[i].pending) by {
        assert(r.peers.contains(n.peers[i]));
        let k = choose|k: int| 0 <= k < r.peers.len() && r.peers[k] == n.peers[i];
        assert(balanced(r.peers[k]));
    }
}

/// Law: after the clock has run no stranger is left that went away, and every
/// configured peer is still there.
pub proof fn law_only_strangers_are_dropped(v: PeersView, tables: TablesView, now: u64)
    requires
        sound(v),
    ensures
        ({
            let n = v.ticked(tables, now).peers;
            &&& forall|i: int| 0 <= i < n.peers.len() ==> !(#[trigger] n.peers[i]).idle(now)
            &&& forall|i: int|
                0 <= i < v.peers.len() && (#[trigger] v.peers[i]).configured is Some ==> exists|
                    k: int,
                |
                    0 <= k < n.peers.len() && (#[trigger] n.peers[k]).addr == v.peers[i].addr
        }),
{
    let n = v.ticked(tables, now).peers;
    let scan = since(now, v.last_scan) >= crate::router::peers::RECONNECT_SCAN;
    let zi = since(now, v.last_zi) >= crate::router::peers::ZI_REREQUEST;
    let r = round(v.peers, tables, scan, zi, now);
    lemma_round(v.peers, tables, scan, zi, now);
    lemma_swept(r.peers, r.tables, now);
    assert forall|i: int|
        0 <= i < v.peers.len() && (#[trigger] v.peers[i]).configured is Some implies exists|
        k: int,
    |
        0 <= k < n.peers.len() && (#[trigger] n.peers[k]).addr == v.peers[i].addr by {
        assert(r.peers[i].configured is Some);
        assert(n.peers.contains(r.peers[i]));
        let k = choose|k: int| 0 <= k < n.peers.len() && n.peers[k] == r.peers[i];
        assert(n.peers[k].addr == v.peers[i].addr);
    }
}

/// Putting a peer among others adds what it is.
proof fn lemma_strangers_insert(ps: Seq<PeerView>, at: int, p: PeerView)
    requires
        0 <= at <= ps.len(),
    ensures
        strangers(ps.insert(at, p)) <= strangers(ps) + 1,
    decreases ps.len(),
{
    let n = ps.insert(at, p);
    if at == ps.len() {
        assert(n.drop_last() =~= ps);
    } else {
        assert(n.drop_last() =~= ps.drop_last().insert(at, p));
        assert(n.last() == ps.last());
        lemma_strangers_insert(ps.drop_last(), at, p);
    }
}

/// What is not about the configured name changes no count.
proof fn lemma_strangers_update(ps: Seq<PeerView>, at: int, p: PeerView)
    requires
        0 <= at < ps.len(),
        p.configured == ps[at].configured,
    ensures
        strangers(ps.update(at, p)) == strangers(ps),
    decreases ps.len(),
{
    let n = ps.update(at, p);
    if at == ps.len() - 1 {
        assert(n.drop_last() =~= ps.drop_last());
    } else {
        assert(n.drop_last() =~= ps.drop_last().update(at, p));
        assert(n.last() == ps.last());
        lemma_strangers_update(ps.drop_last(), at, p);
    }
}

/// Law: open peering never holds more strangers than it may, whatever arrives.
pub proof fn law_strangers_are_bounded(
    v: PeersView,
    from: Ipv4Addr,
    bytes: Seq<u8>,
    tables: TablesView,
    now: u64,
)
    requires
        sound(v),
        strangers(v.peers) <= crate::router::peers::MAX_STRANGERS,
    ensures
        strangers(v.packet(from, bytes, tables, now).peers.peers)
            <= crate::router::peers::MAX_STRANGERS,
{
    lemma_find(v.peers, from);
    lemma_slot(v.peers, from);
    match AurpView::parse(bytes) {
        None => {},
        Some(pkt) => {
            let i = find(v.peers, from);
            if i >= 0 {
                lemma_handled_strangers(v, i, pkt, tables, now);
            } else if v.open_peering && strangers(v.peers)
                < crate::router::peers::MAX_STRANGERS {
                let at = slot(v.peers, from) as int;
                let w = v.joined(None, from, now);
                lemma_joined_sound(v, None, from, now);
                lemma_strangers_insert(v.peers, at, w.peers[at]);
                assert(w.peers =~= v.peers.insert(at, w.peers[at]));
                lemma_handled_strangers(w, at, pkt, tables, now);
            }
        },
    }
}

proof fn lemma_handled_strangers(
    v: PeersView,
    i: int,
    pkt: AurpView,
    tables: TablesView,
    now: u64,
)
    requires
        sound(v),
        0 <= i < v.peers.len(),
    ensures
        strangers(v.handled(i, pkt, tables, now).peers.peers) == strangers(v.peers),
{
    let p = v.peers[i];
    match pkt {
        AurpView::Data { dh, .. } => {
            lemma_strangers_update(
                v.peers,
                i,
                PeerView { di: crate::router::aurp::called(dh.src, p.addr), ..p },
            );
        },
        AurpView::Routing { dh, conn, seq, cmd } => {
            let q = PeerView { di: crate::router::aurp::called(dh.src, p.addr), ..p };
            law_routing_keeps_balance(q, conn, seq, cmd, tables, now);
            lemma_strangers_update(
                v.peers,
                i,
                q.routing(conn, seq, cmd, tables, now).peer,
            );
        },
    }
}

/// Law: telling the peers of route changes leaves them sound.
pub proof fn law_route_changed_keeps(v: PeersView, ch: Seq<RouteChange>, tables: TablesView)
    requires
        sound(v),
    ensures
        sound(PeersView { peers: informed(v.peers, ch, tables), ..v }),
    decreases ch.len(),
{
    if ch.len() > 0 {
        law_route_changed_keeps(v, ch.drop_last(), tables);
        let ps = informed(v.peers, ch.drop_last(), tables);
        let n = informed(v.peers, ch, tables);
        match event_for(ch.last(), tables) {
            Some(e) => {
                assert forall|i: int| 0 <= i < n.len() implies balanced(#[trigger] n[i])
                    && one_each(n[i].pending) && n[i].addr == ps[i].addr by {
                    assert(balanced(ps[i]));
                    law_one_event_per_network(ps[i].pending, e);
                }
                assert forall|i: int, j: int| 0 <= i < j < n.len() implies (
                #[trigger] n[i]).addr.key() < (#[trigger] n[j]).addr.key() by {
                    assert(ps[i].addr.key() < ps[j].addr.key());
                }
            },
            None => {},
        }
    }
}

/// Law: shutting down leaves the peers sound.
pub proof fn law_shutdown_keeps(v: PeersView, now: u64)
    requires
        sound(v),
    ensures
        sound(PeersView { peers: all_shut(v.peers, now), ..v }),
{
    let n = all_shut(v.peers, now);
    assert forall|i: int| 0 <= i < n.len() implies balanced(#[trigger] n[i]) && one_each(
        n[i].pending,
    ) && n[i].addr == v.peers[i].addr by {
        law_shutdown_keeps_balance(v.peers[i], now);
    }
    assert forall|i: int, j: int| 0 <= i < j < n.len() implies (#[trigger] n[i]).addr.key() < (
    #[trigger] n[j]).addr.key() by {
        assert(v.peers[i].addr.key() < v.peers[j].addr.key());
    }
}

/// Law: with open peering off, an address that was never configured gets no
/// answer, no connection and no route.
pub proof fn law_unknown_peers_are_dropped(
    v: PeersView,
    from: Ipv4Addr,
    bytes: Seq<u8>,
    tables: TablesView,
    now: u64,
)
    requires
        !v.open_peering,
        forall|i: int| 0 <= i < v.peers.len() ==> (#[trigger] v.peers[i]).addr != from,
    ensures
        ({
            let o = v.packet(from, bytes, tables, now);
            &&& o.peers.peers == v.peers && o.tables == tables
            &&& o.chs == Seq::<RouteChange>::empty() && o.ddp is None
            &&& forall|i: int| 0 <= i < o.acts.len() ==> (#[trigger] o.acts[i]) is Log
        }),
{
    lemma_find(v.peers, from);
}

/// Law: what one end wraps for the tunnel is what the other end unwraps. A
/// whole datagram that has not expired comes out byte for byte, wherever the
/// sender is known, or peering is open and has room.
pub proof fn law_the_tunnel_delivers(
    ours: PeersView,
    theirs: PeersView,
    us: Ipv4Addr,
    them: Ipv4Addr,
    ddp: Seq<u8>,
    tables: TablesView,
    now: u64,
)
    requires
        one_datagram(ddp),
        !expired(ddp),
        find(theirs.peers, us) >= 0 || (theirs.open_peering && strangers(theirs.peers)
            < crate::router::peers::MAX_STRANGERS),
    ensures
        ours.wrapped(them, ddp) matches ActionView::ToPeer { peer, bytes } && peer == them
            && theirs.packet(us, bytes, tables, now).ddp == Some(ddp) && theirs.packet(
            us,
            bytes,
            tables,
            now,
        ).tables == tables,
{
    let i = find(ours.peers, them);
    let dst = if i >= 0 {
        ours.peers[i].di
    } else {
        crate::wire::aurp::Di::Ip(them)
    };
    aurp_laws::law_round_trip(
        AurpView::Data {
            dh: crate::wire::aurp::DomainHeader { dst, src: ours.local },
            ddp,
        },
    );
}

} // verus!
