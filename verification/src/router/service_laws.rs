//! What a router owes its cables, said of the routes it knows and of the
//! packets as they read.

use vstd::prelude::*;

use crate::router::local::{advertised, batches, beacon, beacons, data_packets, law_rtmp_packets_lose_nothing_and_fit, queries, query_for, served, LocalView};
use crate::router::ports::PortView;
use crate::router::route_laws::{law_everything_else_is_announced, law_networks_without_zones, law_nothing_else_is_announced, zones_known};
use crate::router::table::{Route, TablesView};
use crate::router::{DestView, EmitView, Target};
use crate::wire;
use crate::wire::ddp::DdpView;
use crate::wire::frame::DdpBodyView;
use crate::wire::rtmp::RtmpView;
use crate::wire::zip::ZipView;
use crate::wire::{Addr, NetworkTuple};

verus! {

/// An RTMP Data packet of a port's router that holds given tuples: from socket
/// 1, of DDP type 1, under our address, and on Ethernet with the cable's range.
pub open spec fn tells(
    e: EmitView,
    p: PortView,
    dest: DestView,
    dst: Addr,
    dst_socket: u8,
    ts: Seq<NetworkTuple>,
) -> bool {
    &&& p.node matches Some(n)
    &&& e matches EmitView::On { port, dest: to, ddp }
    &&& port == p.id && to == dest && ddp.dst == dst && ddp.dst_socket == dst_socket
    &&& ddp.src == (Addr { net: p.range.0, node: n }) && ddp.src_socket == 1 && ddp.typ == 1
    &&& ddp.data == (RtmpView::Data {
        sender: Addr { net: p.range.0, node: n },
        range: if p.kind is Ether {
            Some(p.range)
        } else {
            None
        },
        tuples: ts,
    }).bytes()
}

/// One of the packets holds a tuple.
pub open spec fn told(
    es: Seq<EmitView>,
    p: PortView,
    dest: DestView,
    dst: Addr,
    dst_socket: u8,
    t: NetworkTuple,
) -> bool {
    exists|i: int, ts: Seq<NetworkTuple>|
        0 <= i < es.len() && ts.contains(t) && #[trigger] tells(es[i], p, dest, dst, dst_socket, ts)
}

proof fn lemma_told(
    p: PortView,
    dest: DestView,
    dst: Addr,
    dst_socket: u8,
    ts: Seq<NetworkTuple>,
    t: NetworkTuple,
)
    requires
        p.node is Some,
        ts.contains(t),
    ensures
        told(data_packets(p, dest, dst, dst_socket, ts), p, dest, dst, dst_socket, t),
{
    let base: nat = if p.kind is Ether {
        10
    } else {
        7
    };
    law_rtmp_packets_lose_nothing_and_fit(base, ts, 0);
    let bs = batches(base, ts);
    lemma_flatten_has(bs, t);
    let i = choose|i: int| 0 <= i < bs.len() && (#[trigger] bs[i]).contains(t);
    let es = data_packets(p, dest, dst, dst_socket, ts);
    assert(tells(es[i], p, dest, dst, dst_socket, bs[i]));
}

proof fn lemma_flatten_has(bs: Seq<Seq<NetworkTuple>>, t: NetworkTuple)
    requires
        bs.flatten().contains(t),
    ensures
        exists|i: int| 0 <= i < bs.len() && (#[trigger] bs[i]).contains(t),
    decreases bs.len(),
{
    if bs.len() > 0 {
        let r = bs.drop_first();
        assert(bs.flatten() == bs.first() + r.flatten());
        let k = choose|k: int| 0 <= k < bs.flatten().len() && bs.flatten()[k] == t;
        if k < bs[0].len() {
            assert(bs[0][k] == t);
            assert(bs[0].contains(t));
        } else {
            assert(r.flatten()[k - bs[0].len()] == t);
            lemma_flatten_has(r, t);
            let i = choose|i: int| 0 <= i < r.len() && (#[trigger] r[i]).contains(t);
            assert(bs[i + 1] == r[i]);
        }
    }
}

proof fn lemma_advertised(
    v: TablesView,
    ports: Seq<PortView>,
    ts: Seq<NetworkTuple>,
    t: NetworkTuple,
)
    requires
        ts.contains(t),
        crate::router::local::may_advertise(v, ports, t),
    ensures
        advertised(v, ports, ts).contains(t),
    decreases ts.len(),
{
    let a = ts.drop_last();
    let s = advertised(v, ports, a);
    let w = advertised(v, ports, ts);
    if ts.last() == t {
        assert(w[s.len() as int] == t);
    } else {
        let j = choose|j: int| 0 <= j < ts.len() && ts[j] == t;
        assert(a[j] == t);
        lemma_advertised(v, ports, a, t);
        let k = choose|k: int| 0 <= k < s.len() && s[k] == t;
        assert(w[k] == t);
    }
}

/// A network that may be spoken of: one of our own, or one whose zones are all
/// known.
pub open spec fn speakable(v: TablesView, ports: Seq<PortView>, range: (u16, u16)) -> bool {
    (exists|i: int| 0 <= i < ports.len() && (#[trigger] ports[i]).range == range) || zones_known(
        v,
        range.0,
    )
}

/// Law: every ten seconds each port with an address broadcasts, from socket 1 to
/// socket 1 of everybody, the best route to every network that does not lie
/// behind the port and may be spoken of.
pub proof fn law_beacons_tell_of_every_network(
    l: LocalView,
    ports: Seq<PortView>,
    v: TablesView,
    now: u64,
    i: int,
    r: Route,
)
    requires
        0 <= i < ports.len(),
        ports[i].node is Some,
        v.best_from(r.range.0) == Some(r),
        r.target != Target::Port(ports[i].id),
        speakable(v, ports, r.range),
        l.last_beacon matches Some(t) ==> now - t >= 10000,
    ensures
        told(
            l.ticked(ports, v, now).1,
            ports[i],
            DestView::Broadcast,
            Addr { net: 0, node: 255 },
            1,
            NetworkTuple { range: r.range, extended: r.extended, distance: r.distance },
        ),
        l.ticked(ports, v, now).0.last_beacon == Some(now),
{
    let p = ports[i];
    let t = NetworkTuple { range: r.range, extended: r.extended, distance: r.distance };
    law_everything_else_is_announced(v, p.id, r.range.0);
    assert(v.tuples_for(p.id).contains(t));
    if exists|k: int| 0 <= k < ports.len() && (#[trigger] ports[k]).range == r.range {
        let k = choose|k: int| 0 <= k < ports.len() && (#[trigger] ports[k]).range == r.range;
        assert(crate::router::local::own_range(ports, t.range));
    }
    lemma_advertised(v, ports, v.tuples_for(p.id), t);
    let ts = advertised(v, ports, v.tuples_for(p.id));
    lemma_told(p, DestView::Broadcast, Addr { net: 0, node: 255 }, 1, ts, t);
    let b = beacon(p, ports, v);
    let (k, x) = choose|k: int, x: Seq<NetworkTuple>|
        0 <= k < b.len() && x.contains(t) && #[trigger] tells(
            b[k],
            p,
            DestView::Broadcast,
            Addr { net: 0, node: 255 },
            1,
            x,
        );
    let all = beacons(ports, ports.len(), v);
    lemma_beacons_have(ports, ports.len(), v, i, k);
    let m = choose|m: int| 0 <= m < all.len() && all[m] == b[k];
    let es = l.ticked(ports, v, now).1;
    assert(es[m] == all[m]);
    assert(tells(es[m], p, DestView::Broadcast, Addr { net: 0, node: 255 }, 1, x));
}

proof fn lemma_beacons_have(ports: Seq<PortView>, n: nat, v: TablesView, i: int, k: int)
    requires
        0 <= i < n <= ports.len(),
        0 <= k < beacon(ports[i], ports, v).len(),
    ensures
        beacons(ports, n, v).contains(beacon(ports[i], ports, v)[k]),
    decreases n,
{
    let a = beacons(ports, (n - 1) as nat, v);
    let w = beacons(ports, n, v);
    let x = beacon(ports[i], ports, v)[k];
    if i == n - 1 {
        assert(w[a.len() + k] == x);
    } else {
        lemma_beacons_have(ports, (n - 1) as nat, v, i, k);
        let m = choose|m: int| 0 <= m < a.len() && a[m] == x;
        assert(w[m] == x);
    }
}

/// Law: what a beacon tells of does not lie behind its port, and may be spoken
/// of; and a port without an address is silent.
pub proof fn law_beacons_tell_of_nothing_else(
    ports: Seq<PortView>,
    v: TablesView,
    p: PortView,
    t: NetworkTuple,
)
    requires
        advertised(v, ports, v.tuples_for(p.id)).contains(t),
    ensures
        speakable(v, ports, t.range),
        (v.best_from(t.range.0) matches Some(r) && r.target != Target::Port(p.id) && t.distance
            == r.distance) || t.distance == 31,
        p.node is None ==> beacon(p, ports, v).len() == 0,
{
    let ts = v.tuples_for(p.id);
    let a = advertised(v, ports, ts);
    let i = choose|i: int| 0 <= i < a.len() && a[i] == t;
    crate::router::local::law_zoneless_networks_are_not_advertised(v, ports, ts, i);
    law_nothing_else_is_announced(v, p.id, t);
    if crate::router::local::own_range(ports, t.range) {
        let k = choose|k: int| 0 <= k < ports.len() && (#[trigger] ports[k]).range == t.range;
        assert(ports[k].range == t.range);
    }
}

/// Law: between beacons, ten seconds, nothing is told, and between questions,
/// ten seconds too, nothing is asked.
pub proof fn law_the_services_keep_their_pace(
    l: LocalView,
    ports: Seq<PortView>,
    v: TablesView,
    now: u64,
)
    requires
        l.last_beacon matches Some(t) && t <= now && now - t < 10000,
        l.last_query matches Some(t) && t <= now && now - t < 10000,
    ensures
        l.ticked(ports, v, now).1.len() == 0,
        l.ticked(ports, v, now).0 == l,
{
}

/// Law: every ten seconds the router a network was learned from is asked for its
/// zones, where they are not all known: a ZIP Query for it, from our address on
/// that port, socket 6 to socket 6.
pub proof fn law_missing_zones_are_asked_of_the_next_router(
    l: LocalView,
    ports: Seq<PortView>,
    v: TablesView,
    now: u64,
    r: Route,
    i: int,
)
    requires
        0 <= i < ports.len(),
        ports[i].node is Some,
        forall|k: int| 0 <= k < i ==> (#[trigger] ports[k]).id != ports[i].id,
        v.best_from(r.range.0) == Some(r),
        r.target == Target::Port(ports[i].id),
        r.distance != 0,
        !zones_known(v, r.range.0),
        l.last_query matches Some(t) ==> now - t >= 10000,
    ensures
        exists|k: int|
            0 <= k < l.ticked(ports, v, now).1.len() && asks_zones(
                #[trigger] l.ticked(ports, v, now).1[k],
                ports[i],
                r,
            ),
{
    law_networks_without_zones(v);
    let rs = v.zoneless();
    assert(rs.contains(r));
    lemma_addr_on(ports, i);
    let e = query_for(ports, r)->0;
    lemma_queries_have(ports, rs, r);
    let qs = queries(ports, rs);
    let m = choose|m: int| 0 <= m < qs.len() && qs[m] == e;
    let es = l.ticked(ports, v, now).1;
    let k = es.len() - qs.len() + m;
    assert(es[k] == qs[m]);
    let z = ZipView::Query { nets: seq![r.range.0] };
    wire::zip::law_round_trip(z);
    assert(asks_zones(es[k], ports[i], r));
}

/// A question for the zones of a route's network, to the next router.
pub open spec fn asks_zones(e: EmitView, p: PortView, r: Route) -> bool {
    &&& p.node matches Some(n)
    &&& e matches EmitView::On { port, dest, ddp }
    &&& port == p.id && dest == DestView::Node(r.next.node) && ddp.dst == r.next
    &&& ddp.src == (Addr { net: p.range.0, node: n }) && ddp.src_socket == 6 && ddp.dst_socket == 6
        && ddp.typ == 6
    &&& ZipView::parse(ddp.data) == Some(ZipView::Query { nets: seq![r.range.0] })
}

proof fn lemma_addr_on(ports: Seq<PortView>, i: int)
    requires
        0 <= i < ports.len(),
        ports[i].node is Some,
        forall|k: int| 0 <= k < i ==> (#[trigger] ports[k]).id != ports[i].id,
    ensures
        crate::router::local::addr_on(ports, ports[i].id) == ports[i].addr(),
    decreases ports.len(),
{
    let a = ports.drop_last();
    if i < a.len() {
        assert forall|k: int| 0 <= k < i implies (#[trigger] a[k]).id != a[i].id by {
            assert(a[k] == ports[k]);
        }
        lemma_addr_on(a, i);
    } else {
        lemma_no_addr_on(a, ports[i].id);
    }
}

proof fn lemma_no_addr_on(ports: Seq<PortView>, id: u8)
    requires
        forall|k: int| 0 <= k < ports.len() ==> (#[trigger] ports[k]).id != id,
    ensures
        crate::router::local::addr_on(ports, id) is None,
    decreases ports.len(),
{
    if ports.len() > 0 {
        let a = ports.drop_last();
        assert forall|k: int| 0 <= k < a.len() implies (#[trigger] a[k]).id != id by {
            assert(a[k] == ports[k]);
        }
        lemma_no_addr_on(a, id);
        assert(ports[ports.len() - 1].id != id);
    }
}

proof fn lemma_queries_have(ports: Seq<PortView>, rs: Seq<Route>, r: Route)
    requires
        rs.contains(r),
        query_for(ports, r) is Some,
    ensures
        queries(ports, rs).contains(query_for(ports, r)->0),
    decreases rs.len(),
{
    let a = rs.drop_last();
    let s = queries(ports, a);
    let w = queries(ports, rs);
    let x = query_for(ports, r)->0;
    if rs.last() == r {
        assert(w[s.len() as int] == x);
    } else {
        let j = choose|j: int| 0 <= j < rs.len() && rs[j] == r;
        assert(a[j] == r);
        lemma_queries_have(ports, a, r);
        let k = choose|k: int| 0 <= k < s.len() && s[k] == x;
        assert(w[k] == x);
    }
}

/// Law: RTMP Data of another router is learned tuple by tuple, over the port it
/// came on and with that router as the next; our own is not.
pub proof fn law_neighbours_are_learned_from(
    p: PortView,
    ports: Seq<PortView>,
    d: DdpView,
    sender: Addr,
    range: Option<(u16, u16)>,
    ts: Seq<NetworkTuple>,
    t: NetworkTuple,
    v: TablesView,
    now: u64,
)
    ensures
        ({
            let run = |x: Seq<NetworkTuple>|
                served(
                    p,
                    ports,
                    d,
                    DdpBodyView::Rtmp(RtmpView::Data { sender, range, tuples: x }),
                    v,
                    now,
                );
            let own = p.node matches Some(n) && sender == (Addr { net: p.range.0, node: n });
            &&& run(ts).emits.len() == 0
            &&& own ==> run(ts).tables == v && run(ts).chs.len() == 0
            &&& run(Seq::empty()).tables == v
            &&& !own ==> run(ts.push(t)).tables == run(ts).tables.learn(
                t,
                Target::Port(p.id),
                sender,
                now,
            )
        }),
{
    assert(ts.push(t).drop_last() =~= ts);
}

/// Law: an RTMP Request is answered to whoever sent it, on the port it came on,
/// with the cable's range and no tuples.
pub proof fn law_a_request_is_answered(
    p: PortView,
    ports: Seq<PortView>,
    d: DdpView,
    v: TablesView,
    now: u64,
)
    requires
        p.node is Some,
    ensures
        ({
            let s = served(p, ports, d, DdpBodyView::Rtmp(RtmpView::Request), v, now);
            s.tables == v && s.chs.len() == 0 && s.emits.len() == 1 && tells(
                s.emits[0],
                p,
                DestView::Node(d.src.node),
                d.src,
                d.src_socket,
                Seq::empty(),
            )
        }),
{
    let base: nat = if p.kind is Ether {
        10
    } else {
        7
    };
    assert(batches(base, Seq::empty()) =~= seq![Seq::<NetworkTuple>::empty()]);
}

/// Law: a Route Data Request is answered to whoever sent it with every best
/// route that may be spoken of; with split horizon, less those behind the port
/// it came on.
pub proof fn law_a_route_data_request_is_answered(
    p: PortView,
    ports: Seq<PortView>,
    d: DdpView,
    split_horizon: bool,
    v: TablesView,
    now: u64,
    r: Route,
)
    requires
        p.node is Some,
        v.best_from(r.range.0) == Some(r),
        speakable(v, ports, r.range),
        split_horizon ==> r.target != Target::Port(p.id),
        !split_horizon ==> (r.target matches Target::Port(id) ==> exists|i: int|
            0 <= i < ports.len() && (#[trigger] ports[i]).id == id),
        exists|id: u8| !#[trigger] crate::router::local::holds_id(ports, id),
    ensures
        told(
            served(
                p,
                ports,
                d,
                DdpBodyView::Rtmp(RtmpView::Rdr { split_horizon }),
                v,
                now,
            ).emits,
            p,
            DestView::Node(d.src.node),
            d.src,
            d.src_socket,
            NetworkTuple { range: r.range, extended: r.extended, distance: r.distance },
        ),
{
    let t = NetworkTuple { range: r.range, extended: r.extended, distance: r.distance };
    let hidden = if split_horizon {
        p.id
    } else {
        crate::router::local::unheld(ports, 0)
    };
    if !split_horizon {
        let id = choose|id: u8| !#[trigger] crate::router::local::holds_id(ports, id);
        lemma_unheld(ports, 0, id);
        if let Target::Port(x) = r.target {
            let i = choose|i: int| 0 <= i < ports.len() && (#[trigger] ports[i]).id == x;
            assert(crate::router::local::holds_id(ports, x));
        }
    }
    assert(r.target != Target::Port(hidden));
    law_everything_else_is_announced(v, hidden, r.range.0);
    if exists|k: int| 0 <= k < ports.len() && (#[trigger] ports[k]).range == r.range {
        let k = choose|k: int| 0 <= k < ports.len() && (#[trigger] ports[k]).range == r.range;
        assert(crate::router::local::own_range(ports, t.range));
    }
    lemma_advertised(v, ports, v.tuples_for(hidden), t);
    lemma_told(
        p,
        DestView::Node(d.src.node),
        d.src,
        d.src_socket,
        advertised(v, ports, v.tuples_for(hidden)),
        t,
    );
}

proof fn lemma_unheld(ports: Seq<PortView>, from: u8, id: u8)
    requires
        from <= id,
        !crate::router::local::holds_id(ports, id),
    ensures
        !crate::router::local::holds_id(ports, crate::router::local::unheld(ports, from)),
    decreases 255 - from,
{
    if from < id && crate::router::local::holds_id(ports, from) {
        lemma_unheld(ports, (from + 1) as u8, id);
    }
}

} // verus!
