//! The services a router owes its own cables: routing-table exchange and zone
//! queries.
//!
//! Everything here is pure: `handle` and `tick` take what they need, read and
//! update the tables, and hand back datagrams for the runtime to send. Every
//! time is in milliseconds.

use vstd::prelude::*;

use crate::node::{datagram, datagram_of};
use crate::router::aurp::{elapsed, since};
use crate::router::pages::tuple_size;
use crate::router::ports::{Port, PortView};
use crate::router::table::{Route, RouteChange, Tables, TablesView};
use crate::router::table_laws::{consistent, law_learn_keeps, ranges_apart};
use crate::router::{Dest, DestView, Emit, EmitView, PortId, Target};
use crate::wire::ddp::DdpView;
use crate::wire::frame::DdpBodyView;
use crate::wire::rtmp::{tuples_bytes, RtmpView};
use crate::wire::zip::ZipView;
use crate::wire::{Addr, Ddp, DdpBody, Encode, NetworkTuple, Rtmp, Zip, DDP_RTMP_DATA, DDP_ZIP};

verus! {

/// How often a router broadcasts its routing table on each port.
pub const RTMP_INTERVAL: u64 = 10000;

/// How often we ask the next router for the zones of a network we lack.
pub const ZIP_QUERY_INTERVAL: u64 = 10000;

pub const RTMP_SOCKET: u8 = 1;

pub const NBP_SOCKET: u8 = 2;

pub const AEP_SOCKET: u8 = 4;

pub const ZIP_SOCKET: u8 = 6;

/// The most data one DDP datagram carries.
pub const DDP_MAX: usize = 586;

/// The router's own name, and the state its two timers keep.
pub struct Local {
    pub name: String,
    pub last_beacon: Option<u64>,
    pub last_query: Option<u64>,
}

/// The state of the services, as data.
pub struct LocalView {
    pub name: Seq<char>,
    pub last_beacon: Option<u64>,
    pub last_query: Option<u64>,
}

impl DeepView for Local {
    type V = LocalView;

    open spec fn deep_view(&self) -> LocalView {
        LocalView {
            name: self.name@,
            last_beacon: self.last_beacon,
            last_query: self.last_query,
        }
    }
}

// -------------------------------------------------------------------- packets

/// Tuples spread over packets: those that are full, the one being filled, and
/// how long it is.
pub struct Chunks {
    pub done: Seq<Seq<NetworkTuple>>,
    pub batch: Seq<NetworkTuple>,
    pub size: nat,
}

/// Four bytes of sender, then the first tuple: six for a range, three for the
/// version marker.
pub open spec fn base_of(range: Option<(u16, u16)>) -> nat {
    if range is Some {
        10
    } else {
        7
    }
}

/// As many tuples to a packet as stay within `DDP_MAX`.
pub open spec fn chunked(base: nat, ts: Seq<NetworkTuple>) -> Chunks
    decreases ts.len(),
{
    if ts.len() == 0 {
        Chunks { done: Seq::empty(), batch: Seq::empty(), size: base }
    } else {
        let c = chunked(base, ts.drop_last());
        let t = ts.last();
        if c.size + tuple_size(t) > DDP_MAX && c.batch.len() > 0 {
            Chunks { done: c.done.push(c.batch), batch: seq![t], size: base + tuple_size(t) }
        } else {
            Chunks { done: c.done, batch: c.batch.push(t), size: c.size + tuple_size(t) }
        }
    }
}

/// The tuples of each packet. There is always one packet, so a Response with
/// no tuples still goes out.
pub open spec fn batches(base: nat, ts: Seq<NetworkTuple>) -> Seq<Seq<NetworkTuple>> {
    chunked(base, ts).done.push(chunked(base, ts).batch)
}

/// Only an extended network states a range; a nonextended one sends the
/// three-byte version marker in its place.
pub open spec fn stated_range(p: PortView) -> Option<(u16, u16)> {
    if p.extended() {
        Some(p.range)
    } else {
        None
    }
}

/// The RTMP Data packets carrying tuples, from the RTMP socket. A port without
/// an address sends none.
pub open spec fn data_packets(
    p: PortView,
    dest: DestView,
    dst: Addr,
    dst_socket: u8,
    ts: Seq<NetworkTuple>,
) -> Seq<EmitView> {
    match p.addr() {
        None => Seq::empty(),
        Some(sender) => {
            let range = stated_range(p);
            let b = batches(base_of(range), ts);
            Seq::new(
                b.len(),
                |i: int|
                    EmitView::On {
                        port: p.id,
                        dest,
                        ddp: datagram_of(
                            sender,
                            RTMP_SOCKET,
                            dst,
                            dst_socket,
                            DDP_RTMP_DATA,
                            (RtmpView::Data { sender, range, tuples: b[i] }).bytes(),
                        ),
                    },
            )
        },
    }
}

/// Splits tuples across as many RTMP Data packets as it takes.
fn chunk(sender: Addr, range: Option<(u16, u16)>, tuples: &[NetworkTuple]) -> (r: Vec<Rtmp>)
    ensures
        r.deep_view() == Seq::new(
            batches(base_of(range), tuples@).len(),
            |i: int|
                RtmpView::Data { sender, range, tuples: batches(base_of(range), tuples@)[i] },
        ),
{
    let base: usize = if range.is_some() {
        10
    } else {
        7
    };
    let ghost ts = tuples@;
    let ghost packet = |b: Seq<NetworkTuple>| RtmpView::Data { sender, range, tuples: b };
    let mut out: Vec<Rtmp> = Vec::new();
    let mut batch: Vec<NetworkTuple> = Vec::new();
    let mut size: usize = base;
    let mut i: usize = 0;
    assert(ts.take(0) =~= Seq::empty());
    assert(out.deep_view() =~= Seq::new(
        chunked(base as nat, ts.take(0)).done.len(),
        |k: int| packet(chunked(base as nat, ts.take(0)).done[k]),
    ));
    while i < tuples.len()
        invariant
            i <= tuples@.len(),
            ts == tuples@,
            base <= 10,
            size <= DDP_MAX,
            packet == (|b: Seq<NetworkTuple>| RtmpView::Data { sender, range, tuples: b }),
            batch@ == chunked(base as nat, ts.take(i as int)).batch,
            size == chunked(base as nat, ts.take(i as int)).size,
            out.deep_view() == Seq::new(
                chunked(base as nat, ts.take(i as int)).done.len(),
                |k: int| packet(chunked(base as nat, ts.take(i as int)).done[k]),
            ),
            batch@.len() == 0 ==> size == base,
        decreases tuples@.len() - i,
    {
        let ghost c = chunked(base as nat, ts.take(i as int));
        let ghost n = chunked(base as nat, ts.take(i + 1));
        assert(ts.take(i + 1).drop_last() =~= ts.take(i as int));
        assert(ts.take(i + 1).last() == ts[i as int]);
        let t = tuples[i];
        let len: usize = if t.extended {
            6
        } else {
            3
        };
        if size + len > DDP_MAX && batch.len() > 0 {
            let ghost before = out.deep_view();
            let mut full: Vec<NetworkTuple> = Vec::new();
            full.append(&mut batch);
            let ghost fv = full@;
            out.push(Rtmp::Data { sender, range, tuples: full });
            assert(out.deep_view() =~= before.push(packet(fv)));
            assert(n.done == c.done.push(fv));
            assert(out.deep_view() =~= Seq::new(n.done.len(), |k: int| packet(n.done[k])));
            size = base;
        }
        batch.push(t);
        size = size + len;
        assert(batch@ =~= n.batch);
        i = i + 1;
    }
    assert(ts.take(i as int) =~= ts);
    let ghost before = out.deep_view();
    let ghost bv = batch@;
    out.push(Rtmp::Data { sender, range, tuples: batch });
    assert(out.deep_view() =~= before.push(packet(bv)));
    assert(out.deep_view() =~= Seq::new(
        batches(base as nat, ts).len(),
        |k: int| RtmpView::Data { sender, range, tuples: batches(base as nat, ts)[k] },
    ));
    out
}

/// One or more RTMP Data packets carrying `tuples`, each inside DDP's payload
/// limit.
pub fn rtmp_data(
    port: &Port,
    dest: Dest,
    dst: Addr,
    dst_socket: u8,
    tuples: &[NetworkTuple],
) -> (r: Vec<Emit>)
    ensures
        r.deep_view() == data_packets(
            port.deep_view(),
            dest.deep_view(),
            dst,
            dst_socket,
            tuples@,
        ),
{
    let mut out: Vec<Emit> = Vec::new();
    assert(out.deep_view() =~= Seq::empty());
    let sender = match port.addr() {
        Some(a) => a,
        None => {
            return out;
        },
    };
    let range = if port.extended() {
        Some(port.range)
    } else {
        None
    };
    let packets = chunk(sender, range, tuples);
    let ghost all = data_packets(port.deep_view(), dest.deep_view(), dst, dst_socket, tuples@);
    let ghost pv = packets.deep_view();
    assert(pv.len() == all.len());
    let mut i: usize = 0;
    while i < packets.len()
        invariant
            i <= packets@.len(),
            pv == packets.deep_view(),
            pv.len() == all.len(),
            port.deep_view().addr() == Some(sender),
            range == stated_range(port.deep_view()),
            forall|k: int|
                0 <= k < pv.len() ==> (#[trigger] all[k]) == (EmitView::On {
                    port: port.id,
                    dest: dest.deep_view(),
                    ddp: datagram_of(
                        sender,
                        RTMP_SOCKET,
                        dst,
                        dst_socket,
                        DDP_RTMP_DATA,
                        pv[k].bytes(),
                    ),
                }),
            forall|k: int| 0 <= k < pv.len() ==> (#[trigger] pv[k]) is Data,
            out.deep_view() == all.take(i as int),
        decreases packets@.len() - i,
    {
        let p = &packets[i];
        assert(pv[i as int] == p.deep_view());
        let ddp = datagram(sender, RTMP_SOCKET, dst, dst_socket, p.ddp_type(), p.to_bytes());
        let e = Emit::On { port: port.id, dest: dest.clone(), ddp };
        let ghost ev = e.deep_view();
        let ghost before = out.deep_view();
        out.push(e);
        assert(ev == all[i as int]);
        assert(out.deep_view() =~= before.push(ev));
        i = i + 1;
        assert(out.deep_view() =~= all.take(i as int));
    }
    assert(out.deep_view() =~= all);
    out
}

// -------------------------------------------------------------- the services

/// What the tuples of an RTMP Data packet do to the tables, and report.
pub open spec fn heard(
    v: TablesView,
    ts: Seq<NetworkTuple>,
    port: PortId,
    sender: Addr,
    now: u64,
) -> (TablesView, Seq<RouteChange>)
    decreases ts.len(),
{
    if ts.len() == 0 {
        (v, Seq::empty())
    } else {
        let (m, chs) = heard(v, ts.drop_last(), port, sender, now);
        let t = ts.last();
        let n = m.learn(t, Target::Port(port), sender, now);
        (
            n,
            chs + (if m.clashes(t.range) {
                Seq::empty()
            } else {
                m.changes(n, seq![t.range.0])
            }),
        )
    }
}

/// Whether some port has an id.
pub open spec fn holds_id(ports: Seq<PortView>, id: PortId) -> bool {
    exists|i: int| 0 <= i < ports.len() && (#[trigger] ports[i]).id == id
}

/// A port id no configured port holds: the least there is, or the last one.
/// The tuples announced to a port leave out the routes through it, so naming a
/// port that does not exist leaves nothing out.
pub open spec fn unheld(ports: Seq<PortView>, from: PortId) -> PortId
    decreases 255 - from,
{
    if from == 255 || !holds_id(ports, from) {
        from
    } else {
        unheld(ports, (from + 1) as u8)
    }
}

/// Whether a range is the one a port is configured with.
pub open spec fn own_range(ports: Seq<PortView>, range: (u16, u16)) -> bool {
    exists|i: int| 0 <= i < ports.len() && (#[trigger] ports[i]).range == range
}

/// A network with no zone list yet must not be advertised, or its neighbours
/// re-advertise it and the internet queries for zones that never arrive. Our
/// own ports are exempt: their zones come from config, so they are complete by
/// definition.
pub open spec fn may_advertise(v: TablesView, ports: Seq<PortView>, t: NetworkTuple) -> bool {
    own_range(ports, t.range) || v.zoned(t.range.0)
}

pub open spec fn advertised(
    v: TablesView,
    ports: Seq<PortView>,
    ts: Seq<NetworkTuple>,
) -> Seq<NetworkTuple>
    decreases ts.len(),
{
    if ts.len() == 0 {
        Seq::empty()
    } else {
        let s = advertised(v, ports, ts.drop_last());
        if may_advertise(v, ports, ts.last()) {
            s.push(ts.last())
        } else {
            s
        }
    }
}

/// What answering leaves behind.
pub struct Served {
    pub tables: TablesView,
    pub emits: Seq<EmitView>,
    pub chs: Seq<RouteChange>,
}

/// RTMP Data back to whoever asked, on the port it asked over.
pub open spec fn data_back(p: PortView, d: DdpView, ts: Seq<NetworkTuple>) -> Seq<EmitView> {
    data_packets(p, DestView::Node(d.src.node), d.src, d.src_socket, ts)
}

/// An RTMP packet. Data of another router is learned; our own beacon heard
/// back off the cable teaches us nothing. A Request is answered with the
/// port's range and no tuples at all, a Route Data Request with the
/// table, less what lies behind the port it came over if it asks for split
/// horizon.
pub open spec fn rtmp_served(
    p: PortView,
    ports: Seq<PortView>,
    d: DdpView,
    r: RtmpView,
    v: TablesView,
    now: u64,
) -> Served {
    match r {
        RtmpView::Data { sender, tuples, .. } => if Some(sender) == p.addr() {
            Served { tables: v, emits: Seq::empty(), chs: Seq::empty() }
        } else {
            let (n, chs) = heard(v, tuples, p.id, sender, now);
            Served { tables: n, emits: Seq::empty(), chs }
        },
        RtmpView::Request => Served {
            tables: v,
            emits: data_back(p, d, Seq::empty()),
            chs: Seq::empty(),
        },
        RtmpView::Rdr { split_horizon } => {
            let hidden = if split_horizon {
                p.id
            } else {
                unheld(ports, 0)
            };
            Served {
                tables: v,
                emits: data_back(p, d, advertised(v, ports, v.tuples_for(hidden))),
                chs: Seq::empty(),
            }
        },
    }
}

pub open spec fn served(
    p: PortView,
    ports: Seq<PortView>,
    d: DdpView,
    body: DdpBodyView,
    v: TablesView,
    now: u64,
) -> Served {
    match body {
        DdpBodyView::Rtmp(r) => rtmp_served(p, ports, d, r, v, now),
        _ => Served { tables: v, emits: Seq::empty(), chs: Seq::empty() },
    }
}

// --------------------------------------------------------------- the beacons

/// Whether something done every `interval` is due.
pub open spec fn due(last: Option<u64>, interval: u64, now: u64) -> bool {
    match last {
        Some(t) => since(now, t) >= interval,
        None => true,
    }
}

/// The beacon of one port: what it may advertise, to the whole cable.
pub open spec fn beacon(p: PortView, ports: Seq<PortView>, v: TablesView) -> Seq<EmitView> {
    data_packets(
        p,
        DestView::Broadcast,
        Addr { net: 0, node: 255 },
        RTMP_SOCKET,
        advertised(v, ports, v.tuples_for(p.id)),
    )
}

/// The beacons of the first `n` ports.
pub open spec fn beacons(ports: Seq<PortView>, n: nat, v: TablesView) -> Seq<EmitView>
    decreases n,
{
    if n == 0 {
        Seq::empty()
    } else {
        beacons(ports, (n - 1) as nat, v) + beacon(ports[n - 1], ports, v)
    }
}

/// Our address on the first port with an id that holds one.
pub open spec fn addr_on(ports: Seq<PortView>, id: PortId) -> Option<Addr>
    decreases ports.len(),
{
    if ports.len() == 0 {
        None
    } else {
        match addr_on(ports.drop_last(), id) {
            Some(a) => Some(a),
            None => if ports.last().id == id {
                ports.last().addr()
            } else {
                None
            },
        }
    }
}

/// "Which zones are on this network?", to the router that told us of it.
pub open spec fn query_for(ports: Seq<PortView>, r: Route) -> Option<EmitView> {
    match r.target {
        Target::Port(p) => match addr_on(ports, p) {
            Some(a) => Some(
                EmitView::On {
                    port: p,
                    dest: DestView::Node(r.next.node),
                    ddp: datagram_of(
                        a,
                        ZIP_SOCKET,
                        r.next,
                        ZIP_SOCKET,
                        DDP_ZIP,
                        (ZipView::Query { nets: seq![r.range.0] }).bytes(),
                    ),
                },
            ),
            None => None,
        },
        Target::Peer(_) => None,
    }
}

pub open spec fn queries(ports: Seq<PortView>, rs: Seq<Route>) -> Seq<EmitView>
    decreases rs.len(),
{
    if rs.len() == 0 {
        Seq::empty()
    } else {
        let s = queries(ports, rs.drop_last());
        match query_for(ports, rs.last()) {
            Some(e) => s.push(e),
            None => s,
        }
    }
}

impl LocalView {
    /// Every tick: an RTMP beacon on each claimed port every 10 s, and a ZIP
    /// Query for every RTMP-learned network still missing its zones.
    pub open spec fn ticked(self, ports: Seq<PortView>, v: TablesView, now: u64) -> (
        LocalView,
        Seq<EmitView>,
    ) {
        let b = due(self.last_beacon, RTMP_INTERVAL, now);
        let q = due(self.last_query, ZIP_QUERY_INTERVAL, now);
        (
            LocalView {
                last_beacon: if b {
                    Some(now)
                } else {
                    self.last_beacon
                },
                last_query: if q {
                    Some(now)
                } else {
                    self.last_query
                },
                ..self
            },
            (if b {
                beacons(ports, ports.len(), v)
            } else {
                Seq::empty()
            }) + (if q {
                queries(ports, v.zoneless())
            } else {
                Seq::empty()
            }),
        )
    }
}

// ----------------------------------------------------------------- execution

/// Whether some port has an id.
fn id_held(ports: &[Port], id: PortId) -> (r: bool)
    ensures
        r == holds_id(ports.deep_view(), id),
{
    let ghost v = ports.deep_view();
    let mut i: usize = 0;
    while i < ports.len()
        invariant
            i <= ports@.len(),
            v == ports.deep_view(),
            forall|j: int| 0 <= j < i ==> (#[trigger] v[j]).id != id,
        decreases ports@.len() - i,
    {
        assert(v[i as int] == ports@[i as int].deep_view());
        if ports[i].id == id {
            return true;
        }
        i = i + 1;
    }
    false
}

/// A port id no configured port holds.
fn no_port(ports: &[Port]) -> (r: PortId)
    ensures
        r == unheld(ports.deep_view(), 0),
{
    let mut id: u8 = 0;
    while id < 255 && id_held(ports, id)
        invariant
            unheld(ports.deep_view(), 0) == unheld(ports.deep_view(), id),
        decreases 255 - id,
    {
        id = id + 1;
    }
    id
}

/// Whether a range is the one a port is configured with.
fn is_own_range(ports: &[Port], range: (u16, u16)) -> (r: bool)
    ensures
        r == own_range(ports.deep_view(), range),
{
    let ghost v = ports.deep_view();
    let mut i: usize = 0;
    while i < ports.len()
        invariant
            i <= ports@.len(),
            v == ports.deep_view(),
            forall|j: int| 0 <= j < i ==> (#[trigger] v[j]).range != range,
        decreases ports@.len() - i,
    {
        assert(v[i as int] == ports@[i as int].deep_view());
        if ports[i].range.0 == range.0 && ports[i].range.1 == range.1 {
            return true;
        }
        i = i + 1;
    }
    false
}

/// The tuples that may be advertised.
fn advertisable(tables: &Tables, ports: &[Port], tuples: Vec<NetworkTuple>) -> (r: Vec<
    NetworkTuple,
>)
    ensures
        r@ == advertised(tables.deep_view(), ports.deep_view(), tuples@),
{
    let ghost ts = tuples@;
    let mut out: Vec<NetworkTuple> = Vec::new();
    assert(ts.take(0) =~= Seq::empty());
    let mut i: usize = 0;
    while i < tuples.len()
        invariant
            i <= tuples@.len(),
            ts == tuples@,
            out@ == advertised(tables.deep_view(), ports.deep_view(), ts.take(i as int)),
        decreases tuples@.len() - i,
    {
        assert(ts.take(i + 1).drop_last() =~= ts.take(i as int));
        assert(ts.take(i + 1).last() == ts[i as int]);
        let t = tuples[i];
        let zoned = match tables.zones(t.range.0) {
            Some(z) => z.complete(),
            None => false,
        };
        if is_own_range(ports, t.range) || zoned {
            out.push(t);
        }
        i = i + 1;
    }
    assert(ts.take(i as int) =~= ts);
    out
}

/// Our address on the first port with an id that holds one.
fn our_addr_on(ports: &[Port], id: PortId) -> (r: Option<Addr>)
    ensures
        r == addr_on(ports.deep_view(), id),
{
    let ghost v = ports.deep_view();
    let mut found: Option<Addr> = None;
    assert(v.take(0) =~= Seq::empty());
    let mut i: usize = 0;
    while i < ports.len()
        invariant
            i <= ports@.len(),
            v == ports.deep_view(),
            v.len() == ports@.len(),
            found == addr_on(v.take(i as int), id),
        decreases ports@.len() - i,
    {
        assert(v.take(i + 1).drop_last() =~= v.take(i as int));
        assert(v.take(i + 1).last() == ports@[i as int].deep_view());
        if found.is_none() && ports[i].id == id {
            found = ports[i].addr();
        }
        i = i + 1;
    }
    assert(v.take(i as int) =~= v);
    found
}

/// Moves everything of `more` to the end of `out`.
fn extend(out: &mut Vec<Emit>, more: Vec<Emit>)
    ensures
        final(out).deep_view() == old(out).deep_view() + more.deep_view(),
{
    let mut more = more;
    let ghost mv = more.deep_view();
    out.append(&mut more);
    assert(out.deep_view() =~= old(out).deep_view() + mv);
}

impl Local {
    pub fn new(name: String) -> (r: Local)
        ensures
            r.deep_view() == (LocalView { name: name@, last_beacon: None, last_query: None }),
    {
        Local { name, last_beacon: None, last_query: None }
    }

    /// A datagram delivered to this router (dst node ours, 0, or 255 on one of
    /// our nets) on `port`.
    pub fn handle(
        &mut self,
        port: &Port,
        ports: &[Port],
        ddp: &Ddp,
        body: &DdpBody,
        tables: &mut Tables,
        now: u64,
    ) -> (r: (Vec<Emit>, Vec<RouteChange>))
        ensures
            ({
                let s = served(
                    port.deep_view(),
                    ports.deep_view(),
                    ddp.deep_view(),
                    body.deep_view(),
                    old(tables).deep_view(),
                    now,
                );
                &&& final(tables).deep_view() == s.tables
                &&& r.0.deep_view() == s.emits
                &&& r.1@ == s.chs
            }),
            final(self).deep_view() == old(self).deep_view(),
    {
        match body {
            DdpBody::Rtmp(r) => self.rtmp(port, ports, ddp, r, tables, now),
            _ => {
                let none: Vec<Emit> = Vec::new();
                assert(none.deep_view() =~= Seq::empty());
                (none, Vec::new())
            },
        }
    }

    fn rtmp(
        &self,
        port: &Port,
        ports: &[Port],
        ddp: &Ddp,
        r: &Rtmp,
        tables: &mut Tables,
        now: u64,
    ) -> (out: (Vec<Emit>, Vec<RouteChange>))
        ensures
            ({
                let s = rtmp_served(
                    port.deep_view(),
                    ports.deep_view(),
                    ddp.deep_view(),
                    r.deep_view(),
                    old(tables).deep_view(),
                    now,
                );
                &&& final(tables).deep_view() == s.tables
                &&& out.0.deep_view() == s.emits
                &&& out.1@ == s.chs
            }),
    {
        let none: Vec<Emit> = Vec::new();
        assert(none.deep_view() =~= Seq::empty());
        match r {
            Rtmp::Data { sender, tuples, .. } => {
                let ours = match port.addr() {
                    Some(a) => a == *sender,
                    None => false,
                };
                if ours {
                    return (none, Vec::new());
                }
                let chs = learn_all(tables, tuples, port.id, *sender, now);
                (none, chs)
            },
            Rtmp::Request => {
                let no_tuples: Vec<NetworkTuple> = Vec::new();
                assert(no_tuples@ =~= Seq::empty());
                (self.data_to(port, ddp, no_tuples.as_slice()), Vec::new())
            },
            Rtmp::Rdr { split_horizon } => {
                let hidden = if *split_horizon {
                    port.id
                } else {
                    no_port(ports)
                };
                let tuples = advertisable(tables, ports, tables.tuples_for(hidden));
                (self.data_to(port, ddp, tuples.as_slice()), Vec::new())
            },
        }
    }

    /// RTMP Data back to whoever asked, on the port it asked over.
    fn data_to(&self, port: &Port, ddp: &Ddp, tuples: &[NetworkTuple]) -> (r: Vec<Emit>)
        ensures
            r.deep_view() == data_back(port.deep_view(), ddp.deep_view(), tuples@),
    {
        rtmp_data(port, Dest::Node(ddp.src.node), ddp.src, ddp.src_socket, tuples)
    }

    /// Beacons and zone queries, as they fall due.
    pub fn tick(&mut self, ports: &[Port], tables: &Tables, now: u64) -> (r: Vec<Emit>)
        ensures
            (final(self).deep_view(), r.deep_view()) == old(self).deep_view().ticked(
                ports.deep_view(),
                tables.deep_view(),
                now,
            ),
    {
        let mut out: Vec<Emit> = Vec::new();
        assert(out.deep_view() =~= Seq::empty());
        if is_due(self.last_beacon, RTMP_INTERVAL, now) {
            self.last_beacon = Some(now);
            out = all_beacons(ports, tables);
        }
        let ghost first = out.deep_view();
        let mut asked: Vec<Emit> = Vec::new();
        assert(asked.deep_view() =~= Seq::empty());
        if is_due(self.last_query, ZIP_QUERY_INTERVAL, now) {
            self.last_query = Some(now);
            asked = all_queries(ports, &tables.zoneless());
        }
        extend(&mut out, asked);
        out
    }
}

/// Learns every tuple of an RTMP Data packet.
fn learn_all(
    tables: &mut Tables,
    tuples: &Vec<NetworkTuple>,
    port: PortId,
    sender: Addr,
    now: u64,
) -> (r: Vec<RouteChange>)
    ensures
        (final(tables).deep_view(), r@) == heard(
            old(tables).deep_view(),
            tuples@,
            port,
            sender,
            now,
        ),
{
    let ghost v = tables.deep_view();
    let ghost ts = tuples@;
    let mut out: Vec<RouteChange> = Vec::new();
    assert(ts.take(0) =~= Seq::empty());
    let mut i: usize = 0;
    while i < tuples.len()
        invariant
            i <= tuples@.len(),
            ts == tuples@,
            (tables.deep_view(), out@) == heard(v, ts.take(i as int), port, sender, now),
        decreases tuples@.len() - i,
    {
        assert(ts.take(i + 1).drop_last() =~= ts.take(i as int));
        assert(ts.take(i + 1).last() == ts[i as int]);
        let ghost before = out@;
        let mut more = tables.learn(&tuples[i], Target::Port(port), sender, now);
        let ghost mv = more@;
        out.append(&mut more);
        assert(out@ =~= before + mv);
        i = i + 1;
    }
    assert(ts.take(i as int) =~= ts);
    out
}

/// Whether something done every `interval` is due.
fn is_due(last: Option<u64>, interval: u64, now: u64) -> (r: bool)
    ensures
        r == due(last, interval, now),
{
    match last {
        Some(t) => elapsed(now, t) >= interval,
        None => true,
    }
}

/// The beacons of every port.
fn all_beacons(ports: &[Port], tables: &Tables) -> (r: Vec<Emit>)
    ensures
        r.deep_view() == beacons(
            ports.deep_view(),
            ports.deep_view().len(),
            tables.deep_view(),
        ),
{
    let ghost v = ports.deep_view();
    let mut out: Vec<Emit> = Vec::new();
    assert(out.deep_view() =~= Seq::empty());
    let mut i: usize = 0;
    while i < ports.len()
        invariant
            i <= ports@.len(),
            v == ports.deep_view(),
            v.len() == ports@.len(),
            out.deep_view() == beacons(v, i as nat, tables.deep_view()),
        decreases ports@.len() - i,
    {
        let p = &ports[i];
        assert(v[i as int] == p.deep_view());
        let tuples = advertisable(tables, ports, tables.tuples_for(p.id));
        let more = rtmp_data(
            p,
            Dest::Broadcast,
            Addr { net: 0, node: 255 },
            RTMP_SOCKET,
            tuples.as_slice(),
        );
        extend(&mut out, more);
        i = i + 1;
    }
    out
}

/// The zone queries for networks that miss zones.
fn all_queries(ports: &[Port], routes: &Vec<Route>) -> (r: Vec<Emit>)
    ensures
        r.deep_view() == queries(ports.deep_view(), routes@),
{
    let ghost rs = routes@;
    let mut out: Vec<Emit> = Vec::new();
    assert(out.deep_view() =~= Seq::empty());
    assert(rs.take(0) =~= Seq::empty());
    let mut i: usize = 0;
    while i < routes.len()
        invariant
            i <= routes@.len(),
            rs == routes@,
            out.deep_view() == queries(ports.deep_view(), rs.take(i as int)),
        decreases routes@.len() - i,
    {
        assert(rs.take(i + 1).drop_last() =~= rs.take(i as int));
        assert(rs.take(i + 1).last() == rs[i as int]);
        if let Some(e) = query(ports, &routes[i]) {
            let ghost before = out.deep_view();
            let ghost ev = e.deep_view();
            out.push(e);
            assert(out.deep_view() =~= before.push(ev));
        }
        i = i + 1;
    }
    assert(rs.take(i as int) =~= rs);
    out
}

fn query(ports: &[Port], r: &Route) -> (e: Option<Emit>)
    ensures
        e.deep_view() == query_for(ports.deep_view(), *r),
{
    match r.target {
        Target::Port(p) => match our_addr_on(ports, p) {
            Some(a) => {
                let mut nets: Vec<u16> = Vec::new();
                nets.push(r.range.0);
                assert(nets@ =~= seq![r.range.0]);
                let z = Zip::Query { nets };
                let ddp = datagram(a, ZIP_SOCKET, r.next, ZIP_SOCKET, DDP_ZIP, z.to_bytes());
                Some(Emit::On { port: p, dest: Dest::Node(r.next.node), ddp })
            },
            None => None,
        },
        Target::Peer(_) => None,
    }
}

// --------------------------------------------------------------------- laws

proof fn lemma_size(ts: Seq<NetworkTuple>, t: NetworkTuple, trailer: u8)
    ensures
        tuples_bytes(ts.push(t), trailer).len() == tuples_bytes(ts, trailer).len() + tuple_size(t),
{
    assert(ts.push(t).drop_last() =~= ts);
}

/// Law: the packets of an RTMP table hold exactly its tuples, in order, and
/// each leaves room for the header within a datagram's payload.
pub proof fn law_rtmp_packets_lose_nothing_and_fit(base: nat, ts: Seq<NetworkTuple>, trailer: u8)
    requires
        base <= 10,
    ensures
        batches(base, ts).flatten() == ts,
        forall|i: int|
            0 <= i < batches(base, ts).len() ==> base + tuples_bytes(
                #[trigger] batches(base, ts)[i],
                trailer,
            ).len() <= DDP_MAX,
{
    lemma_chunked(base, ts, trailer);
    let c = chunked(base, ts);
    let b = batches(base, ts);
    c.done.lemma_flatten_push(c.batch);
    assert forall|i: int| 0 <= i < b.len() implies base + tuples_bytes(
        #[trigger] b[i],
        trailer,
    ).len() <= DDP_MAX by {
        if i < c.done.len() {
            assert(b[i] == c.done[i]);
        }
    }
}

proof fn lemma_chunked(base: nat, ts: Seq<NetworkTuple>, trailer: u8)
    requires
        base <= 10,
    ensures
        ({
            let c = chunked(base, ts);
            &&& c.done.flatten() + c.batch == ts
            &&& c.size == base + tuples_bytes(c.batch, trailer).len()
            &&& c.size <= DDP_MAX
            &&& forall|i: int|
                0 <= i < c.done.len() ==> base + tuples_bytes(
                    #[trigger] c.done[i],
                    trailer,
                ).len() <= DDP_MAX
        }),
    decreases ts.len(),
{
    let c = chunked(base, ts);
    if ts.len() == 0 {
        c.done.lemma_flatten_push(Seq::empty());
        assert(c.done =~= Seq::<Seq<NetworkTuple>>::empty());
        assert(c.done.flatten() =~= Seq::<NetworkTuple>::empty());
        assert(c.done.flatten() + c.batch =~= ts);
    } else {
        let a = chunked(base, ts.drop_last());
        let t = ts.last();
        lemma_chunked(base, ts.drop_last(), trailer);
        assert(ts.drop_last() + seq![t] =~= ts);
        if a.size + tuple_size(t) > DDP_MAX && a.batch.len() > 0 {
            a.done.lemma_flatten_push(a.batch);
            assert(c.done.flatten() + c.batch =~= ts);
            lemma_size(Seq::empty(), t, trailer);
            assert(Seq::<NetworkTuple>::empty().push(t) =~= seq![t]);
            assert forall|i: int| 0 <= i < c.done.len() implies base + tuples_bytes(
                #[trigger] c.done[i],
                trailer,
            ).len() <= DDP_MAX by {
                if i < a.done.len() {
                    assert(c.done[i] == a.done[i]);
                }
            }
        } else {
            lemma_size(a.batch, t, trailer);
            assert(c.done.flatten() + c.batch =~= (a.done.flatten() + a.batch) + seq![t]);
            if a.batch.len() == 0 {
                assert(a.batch =~= Seq::empty());
                assert(tuples_bytes(a.batch, trailer).len() == 0);
            }
        }
    }
}

/// Law: whatever RTMP brings, the tables stay consistent and their ranges
/// apart.
pub proof fn law_serving_keeps_the_tables(
    p: PortView,
    ports: Seq<PortView>,
    d: DdpView,
    body: DdpBodyView,
    v: TablesView,
    now: u64,
)
    requires
        consistent(v),
        ranges_apart(v.routes),
    ensures
        consistent(served(p, ports, d, body, v, now).tables),
        ranges_apart(served(p, ports, d, body, v, now).tables.routes),
{
    if let DdpBodyView::Rtmp(RtmpView::Data { sender, tuples, .. }) = body {
        lemma_heard_keeps(v, tuples, p.id, sender, now);
    }
}

proof fn lemma_heard_keeps(
    v: TablesView,
    ts: Seq<NetworkTuple>,
    port: PortId,
    sender: Addr,
    now: u64,
)
    requires
        consistent(v),
        ranges_apart(v.routes),
    ensures
        consistent(heard(v, ts, port, sender, now).0),
        ranges_apart(heard(v, ts, port, sender, now).0.routes),
    decreases ts.len(),
{
    if ts.len() > 0 {
        let m = heard(v, ts.drop_last(), port, sender, now).0;
        lemma_heard_keeps(v, ts.drop_last(), port, sender, now);
        law_learn_keeps(m, ts.last(), Target::Port(port), sender, now);
    }
}

/// Law: a router never advertises a network it has no zones for, unless it is
/// one of its own.
pub proof fn law_zoneless_networks_are_not_advertised(
    v: TablesView,
    ports: Seq<PortView>,
    ts: Seq<NetworkTuple>,
    i: int,
)
    requires
        0 <= i < advertised(v, ports, ts).len(),
    ensures
        may_advertise(v, ports, advertised(v, ports, ts)[i]),
        ts.contains(advertised(v, ports, ts)[i]),
    decreases ts.len(),
{
    let a = ts.drop_last();
    let s = advertised(v, ports, a);
    let w = advertised(v, ports, ts);
    if i < s.len() {
        law_zoneless_networks_are_not_advertised(v, ports, a, i);
        assert(w[i] == s[i]);
        let k = choose|k: int| 0 <= k < a.len() && a[k] == s[i];
        assert(ts[k] == w[i]);
    } else {
        assert(w[i] == ts[ts.len() - 1]);
    }
}

} // verus!
