//! What a node is for: what it asks, as its frames read, and what it makes of
//! what it hears, said of the packets themselves.

use vstd::prelude::*;
use vstd::string::*;

use crate::addr::MacAddr;
use crate::chars;
use crate::fmt;
use crate::node;
use crate::node::{TargetView, Want};
use crate::runtime::{claim_waits, gathered, ClaimError, Goal, LookupView, NodeView, Phase, Ping, WalkState, ZoneWalkView, LOOKUP_INTERVAL, PING_INTERVAL, ZONE_INTERVAL};
use crate::session::messages;
use crate::wire;
use crate::wire::aep::AepView;
use crate::wire::atp::AtpView;
use crate::wire::ddp::DdpView;
use crate::wire::frame::{BodyView, DdpBodyView, FrameView, PacketView};
use crate::wire::nbp::NbpView;
use crate::wire::zip::{ZipAtpView, ZipView};
use crate::wire::{Aarp, Addr, Echo, Func, NbpFunc};

verus! {

/// Everybody on the cable.
pub open spec fn everybody() -> MacAddr {
    MacAddr(0x09, 0x00, 0x07, 0xff, 0xff, 0xff)
}

/// A frame of ours that carries a datagram.
pub open spec fn carries(
    n: NodeView,
    f: FrameView,
    src_socket: u8,
    dst: Addr,
    dst_socket: u8,
    typ: u8,
    data: Seq<u8>,
) -> bool {
    &&& f.snap && f.proto == 0x809b && f.src == n.mac
    &&& DdpView::parse(f.payload) matches Some(d)
    &&& d.src == n.addr && d.src_socket == src_socket && d.dst == dst && d.dst_socket == dst_socket
    &&& d.typ == typ && d.data == data && d.hops == 0 && d.checksum == 0 && d.length == 13
        + data.len()
}

/// Law: a datagram of ours goes out from our own address and MAC, under a
/// header that counts it; to everybody where its node number is 255 or nobody
/// knows where the node is, and otherwise to where the node was heard from.
pub proof fn law_a_datagram_goes_out(
    n: NodeView,
    src_socket: u8,
    dst: Addr,
    dst_socket: u8,
    typ: u8,
    data: Seq<u8>,
)
    requires
        data.len() <= 586,
    ensures
        ({
            let f = n.sent(src_socket, dst, dst_socket, typ, data);
            &&& carries(n, f, src_socket, dst, dst_socket, typ, data)
            &&& dst.node == 255 ==> f.dst == everybody()
            &&& dst.node != 255 && n.amt.contains_key(dst) ==> f.dst == n.amt[dst]
            &&& !n.amt.contains_key(dst) ==> f.dst == everybody()
        }),
{
    let d = node::datagram_of(n.addr, src_socket, dst, dst_socket, typ, data);
    let v = DdpView { length: (13 + data.len()) as u16, ..d };
    assert(v.bytes() =~= d.bytes());
    wire::ddp::law_round_trip(v);
}

// ------------------------------------------------------------------ the address

/// Law: a claim begins with a probe for the address that was asked for; for one
/// on the network that was asked for; or for one in the startup range. The node
/// number is from 1 to 253 where we choose it, and 254 and 255 are refused.
pub proof fn law_a_claim_begins_where_it_was_asked_to(n: NodeView, want: Want, nanos: u32)
    ensures
        ({
            let (m, phase) = n.started(want, nanos);
            match want {
                Want::Addr(a) => if a.node == 254 || a.node == 255 {
                    phase == Phase::Failed(ClaimError::Reserved(a.node)) && m == n
                } else {
                    phase matches Phase::Probing { addr, tries, settled, .. } && addr == a && tries
                        == 1 && !settled && m.probing
                },
                Want::Net(net) => phase matches Phase::Probing { addr, tries, settled, .. }
                    && addr.net == net && 1 <= addr.node <= 253 && tries == 1 && !settled
                    && m.probing,
                Want::Discover => phase matches Phase::Probing { addr, tries, settled, .. } && 0xff00
                    <= addr.net <= 0xfffe && 1 <= addr.node <= 253 && tries == 1 && !settled
                    && m.probing,
            }
        }),
{
}

/// Law: a probe is an AARP Probe for the address, to everybody, and waits a
/// fifth of a second; ten in silence make the address ours. The question that
/// follows is a GetNetInfo for no zone in particular, from socket 6 to socket 6
/// of everybody, and waits a second; three in silence end it.
pub proof fn law_a_claim_asks(n: NodeView, phase: Phase)
    ensures
        n.claim_sends(phase) is Some == (phase is Probing || phase is Asking),
        phase matches Phase::Probing { goal, addr, attempt, tries, settled } ==> {
            let f = n.claim_sends(phase)->0;
            &&& f.snap && f.proto == 0x80f3 && f.src == n.mac && f.dst == everybody()
            &&& Aarp::spec_parse(f.payload) == Some(
                Aarp {
                    op: 3,
                    src_hw: n.mac,
                    src: addr,
                    dst_hw: MacAddr(0, 0, 0, 0, 0, 0),
                    dst: addr,
                },
            )
            &&& claim_waits(phase) == 200
            &&& tries < 10 ==> n.quiet(phase) == (
                n,
                Phase::Probing { goal, addr, attempt, tries: (tries + 1) as u32, settled },
            )
            &&& tries >= 10 ==> n.quiet(phase).0.addr == addr && !n.quiet(phase).0.probing
            &&& tries >= 10 && settled ==> n.quiet(phase).1 == Phase::Done { outside: None }
            &&& tries >= 10 && !settled ==> n.quiet(phase).1 == Phase::Asking { tries: 1 }
        },
        phase matches Phase::Asking { tries } ==> {
            let f = n.claim_sends(phase)->0;
            &&& f.dst == everybody()
            &&& DdpView::parse(f.payload) matches Some(d) && ZipView::parse(d.data) == Some(
                ZipView::GetNetInfo { zone: Seq::empty() },
            ) && carries(n, f, 6, Addr { net: 0, node: 255 }, 6, 6, d.data)
            &&& claim_waits(phase) == 1000
            &&& tries < 3 ==> n.quiet(phase) == (n, Phase::Asking { tries: (tries + 1) as u32 })
            &&& tries >= 3 ==> n.quiet(phase) == (n, Phase::Done { outside: None })
        },
{
    if let Phase::Probing { addr, .. } = phase {
        let a = node::probe_of(addr, n.mac);
        wire::aarp::law_round_trip(a, Seq::empty());
        assert(a.bytes() + Seq::<u8>::empty() =~= a.bytes());
    }
    if let Phase::Asking { .. } = phase {
        reveal_strlit("");
        assert(""@ =~= Seq::<char>::empty());
        let z = ZipView::GetNetInfo { zone: Seq::empty() };
        assert(wire::name_ok(Seq::<char>::empty())) by {
            reveal(wire::name_ok);
        }
        wire::zip::law_round_trip(z);
        wire::lemma_name_bytes(Seq::<char>::empty());
        assert(z.bytes().len() <= 586);
        law_a_datagram_goes_out(n, 6, Addr { net: 0, node: 255 }, 6, 6, z.bytes());
    }
}

/// Somebody else holds or claims an address: a response for it, or a probe for
/// it from another MAC.
pub open spec fn objects(b: BodyView, addr: Addr, mac: MacAddr) -> bool {
    b matches BodyView::Aarp(a) && a.src == addr && (a.op == 2 || (a.op == 3 && a.src_hw != mac))
}

/// Law: an objection to a probe ends it: an address that was asked for is
/// refused as taken, and otherwise the next of five candidates is probed, or
/// none is left. Anything else that is heard changes nothing.
pub proof fn law_an_objection_ends_a_probe(n: NodeView, want: Want, phase: Phase, b: BodyView, nanos: u32)
    ensures
        phase matches Phase::Probing { goal, addr, attempt, settled, .. } ==> {
            let t = n.told(want, phase, b, nanos);
            &&& !objects(b, addr, n.mac) ==> t is None
            &&& objects(b, addr, n.mac) ==> (t matches Some((m, next)) && (match goal {
                Goal::Exact(_) => next == Phase::Failed(ClaimError::Taken(addr)) && !m.probing,
                Goal::Any => if attempt < 4 {
                    next matches Phase::Probing { addr: a, attempt: k, tries, .. } && k == attempt
                        + 1 && tries == 1 && 0xff00 <= a.net <= 0xfffe && 1 <= a.node <= 253
                } else {
                    next == Phase::Failed(ClaimError::NoneFree) && !m.probing
                },
                Goal::Range(r) => if attempt < 4 {
                    next matches Phase::Probing { addr: a, attempt: k, tries, settled: s, .. } && k
                        == attempt + 1 && tries == 1 && s == settled && 1 <= a.node <= 253 && (r.0
                        <= r.1 ==> r.0 <= a.net <= r.1)
                } else {
                    next == Phase::Failed(ClaimError::NoneFreeInRange) && !m.probing
                },
            }))
        },
{
    if let Phase::Probing { goal, attempt, .. } = phase {
        if let Goal::Range(r) = goal {
            if attempt < 4 && r.0 <= r.1 {
                let seed = n.seed(nanos, (attempt + 1) as u32);
                let span = r.1 - r.0 + 1;
                assert(0 <= seed as int % span < span) by (nonlinear_arith)
                    requires
                        span > 0,
                        seed >= 0,
                ;
            }
        }
    }
}

/// A router's answer to a question for no zone in particular: a NetInfo reply
/// that echoes the empty name, broadcast or to us, over a range that is one.
pub open spec fn tells_the_cable(b: BodyView, ours: Addr) -> bool {
    b matches BodyView::Ddp(d, DdpBodyView::Zip(ZipView::NetInfoReply { range, zone, .. })) && (
    d.dst.node == 255 || d.dst == ours) && zone.len() == 0 && range.0 <= range.1
}

/// Law: a router's answer gives us the router and the zone. An address in the
/// cable's range is kept; one outside it is kept where it was asked for, and
/// said to be outside, and is otherwise picked again inside the range. Anything
/// else that is heard changes nothing.
pub proof fn law_a_router_tells_the_cable(n: NodeView, want: Want, tries: u32, b: BodyView, nanos: u32)
    ensures
        ({
            let t = n.told(want, Phase::Asking { tries }, b, nanos);
            &&& !tells_the_cable(b, n.addr) ==> t is None
            &&& tells_the_cable(b, n.addr) ==> (b matches BodyView::Ddp(
                d,
                DdpBodyView::Zip(ZipView::NetInfoReply { range, zone, default_zone, .. }),
            ) && t matches Some((m, next)) && {
                &&& m.router == Some(d.src)
                &&& m.zone == Some(
                    match default_zone {
                        Some(z) => z,
                        None => zone,
                    },
                )
                &&& range.0 <= n.addr.net <= range.1 ==> next == Phase::Done { outside: None }
                &&& !(range.0 <= n.addr.net <= range.1) && want != Want::Discover ==> next
                    == Phase::Done { outside: Some(range) }
                &&& !(range.0 <= n.addr.net <= range.1) && want == Want::Discover ==> (next matches
                    Phase::Probing { addr, settled, tries: k, .. } && settled && k == 1 && range.0
                    <= addr.net <= range.1 && 1 <= addr.node <= 253)
            })
        }),
{
    reveal_strlit("");
    assert(""@ =~= Seq::<char>::empty());
    if let BodyView::Ddp(
        d,
        DdpBodyView::Zip(ZipView::NetInfoReply { range, zone, default_zone, .. }),
    ) = b {
        if zone.len() == 0 {
            assert(zone =~= Seq::<char>::empty());
        }
        if range.0 <= range.1 {
            let seed = n.seed(nanos, 0);
            let span = range.1 - range.0 + 1;
            assert(0 <= seed as int % span < span) by (nonlinear_arith)
                requires
                    span > 0,
                    seed >= 0,
            ;
        }
    }
}

/// Law: once claimed, an address is defended: a request for it, and a probe for
/// it from another MAC, are answered to whoever sent them with our MAC; nothing
/// else is answered.
pub proof fn law_an_address_is_defended(n: NodeView, p: PacketView)
    requires
        !n.probing,
    ensures
        ({
            let asked = p.body matches BodyView::Aarp(a) && ((a.op == 1 && a.dst == n.addr) || (a.op
                == 3 && a.src == n.addr && a.src_hw != n.mac));
            &&& !asked ==> n.answer(p) is None
            &&& asked ==> (p.body matches BodyView::Aarp(a) && n.answer(p) matches Some(f) && {
                &&& f.snap && f.proto == 0x80f3 && f.src == n.mac && f.dst == a.src_hw
                &&& Aarp::spec_parse(f.payload) == Some(
                    Aarp { op: 2, src_hw: n.mac, src: n.addr, dst_hw: a.src_hw, dst: a.src },
                )
            })
        }),
{
    if let BodyView::Aarp(a) = p.body {
        let r = node::response_of(n.addr, n.mac, a.src, a.src_hw);
        wire::aarp::law_round_trip(r, Seq::empty());
        assert(r.bytes() + Seq::<u8>::empty() =~= r.bytes());
    }
}

/// Law: whoever is heard is known from then on by the MAC it was heard from: the
/// sender of a datagram, and of any AARP packet but a probe, whose address is
/// tentative. Whoever else was known stays so.
pub proof fn law_senders_are_noted(n: NodeView, at: u64, p: PacketView)
    ensures
        ({
            let m = n.heard(at, p);
            &&& p.body matches BodyView::Ddp(d, _) ==> m.amt == n.amt.insert(d.src, p.frame.src)
            &&& p.body matches BodyView::Aarp(a) ==> (a.op != 3 ==> m.amt == n.amt.insert(
                a.src,
                a.src_hw,
            )) && (a.op == 3 ==> m.amt == n.amt)
            &&& p.body is Unknown ==> m.amt == n.amt
        }),
{
}

/// Law: a node keeps the last 64 messages it has put together, and every new one
/// among them.
pub proof fn law_messages_are_kept(n: NodeView, at: u64, p: PacketView)
    requires
        n.messages.len() <= 64,
    ensures
        n.heard(at, p).messages.len() <= 64,
        messages(n.session, at, p.body).len() == 1 ==> n.heard(at, p).messages.len() > 0 && n.heard(
            at,
            p,
        ).messages.last() == messages(n.session, at, p.body)[0],
        n.messages.len() < 64 ==> n.heard(at, p).messages == n.messages + messages(
            n.session,
            at,
            p.body,
        ),
{
}

// --------------------------------------------------------------------- lookups

/// Law: a lookup is an NBP packet from our socket 128 to socket 2: a broadcast
/// request to the router where one is known, and a lookup to everybody on the
/// cable where none is. It holds one tuple: our own address and socket, and the
/// object, type and zone asked for.
pub proof fn law_a_lookup_asks_the_right_one(
    n: NodeView,
    object: Seq<char>,
    typ: Seq<char>,
    zone: Seq<char>,
)
    requires
        wire::name_ok(object),
        wire::name_ok(typ),
        wire::name_ok(zone),
    ensures
        ({
            let (m, l) = n.looking_up(object, typ, zone);
            let f = m.lookup_sends(l);
            &&& DdpView::parse(f.payload) matches Some(d)
            &&& NbpView::parse(d.data) matches Some(q)
            &&& carries(m, f, 128, d.dst, 2, 2, d.data)
            &&& n.router matches Some(r) ==> q.func == NbpFunc::BrRq && d.dst == r
            &&& n.router is None ==> q.func == NbpFunc::LkUp && d.dst == Addr { net: 0, node: 255 }
                && f.dst == everybody()
            &&& q.id == l.id && q.tuples.len() == 1
            &&& q.tuples[0].addr == n.addr && q.tuples[0].socket == 128
            &&& q.tuples[0].object == object && q.tuples[0].typ == typ && q.tuples[0].zone == zone
            &&& l.tries == 1 && !l.done && l.found.len() == 0
            &&& m.addr == n.addr && m.router == n.router
        }),
{
    let (m, l) = n.looking_up(object, typ, zone);
    let (func, dst) = match n.router {
        Some(r) => (NbpFunc::BrRq, r),
        None => (NbpFunc::LkUp, Addr { net: 0, node: 255 }),
    };
    let q = node::lookup_of(func, l.id, n.addr, 128, object, typ, zone);
    assert(q.tuples[0].valid());
    wire::nbp::law_round_trip(q);
    wire::lemma_name_bytes(object);
    wire::lemma_name_bytes(typ);
    wire::lemma_name_bytes(zone);
    lemma_lookup_size(q);
    law_a_datagram_goes_out(m, 128, l.dst, 2, 2, l.body);
}

proof fn lemma_lookup_size(q: NbpView)
    requires
        q.tuples.len() == 1,
    ensures
        q.bytes().len() <= 586,
{
    let t = q.tuples[0];
    reveal_with_fuel(wire::nbp::tuples_bytes, 2);
    assert(wire::name_bytes(t.object).len() <= 32);
    assert(wire::name_bytes(t.typ).len() <= 32);
    assert(wire::name_bytes(t.zone).len() <= 32);
}

/// Law: a lookup goes out three times, a second apart. What an interval brought
/// is found, beside what was found before, each entity once; after the third
/// the lookup is done, and what was found is in order.
pub proof fn law_a_lookup_gathers(n: NodeView, l: LookupView, i: int)
    requires
        0 <= i < n.pending.len(),
    ensures
        ({
            let (m, k) = n.looked_up(l);
            &&& m.pending.len() == 0
            &&& l.tries < 3 ==> k.tries == l.tries + 1 && k.done == l.done && node::has_entity(
                k.found,
                n.pending[i],
            ) && l.found.is_prefix_of(k.found) && k.body == l.body && k.dst == l.dst && k.id == l.id
            &&& l.tries >= 3 ==> k.done
            &&& LOOKUP_INTERVAL == 1000
        }),
{
    node::law_merging_lists_each_entity_once(l.found, n.pending);
}

/// Law: what answers a lookup is a reply that carries its number, whoever sends
/// it, and all of it.
pub proof fn law_replies_carry_the_number(b: BodyView, id: u8)
    ensures
        b matches BodyView::Ddp(_, DdpBodyView::Nbp(q)) ==> (q.func == NbpFunc::LkUpReply && q.id
            == id ==> node::replies_in(b, id) == q.tuples),
        node::replies_in(b, id).len() > 0 ==> (b matches BodyView::Ddp(_, DdpBodyView::Nbp(q))
            && q.func == NbpFunc::LkUpReply && q.id == id),
{
}

// ------------------------------------------------------------------- zone lists

/// Law: a zone walk begins with the first zone, at the router; there is none
/// without a router. A page is asked for by an ATP request for one response,
/// from our socket 128 to socket 6: code 8, and the number of the first zone
/// wanted.
pub proof fn law_a_walk_asks_the_router(n: NodeView, w: ZoneWalkView)
    ensures
        n.router is None ==> n.walking().1 is None,
        n.router matches Some(r) ==> (n.walking().1 matches Some(v) && v.router == r && v.start == 1
            && v.page == 1 && v.tries == 1 && v.state == WalkState::Asking && v.zones.len() == 0),
        ({
            let f = n.walk_sends(w);
            DdpView::parse(f.payload) matches Some(d) && carries(
                n,
                f,
                128,
                w.router,
                6,
                3,
                d.data,
            ) && (AtpView::parse(d.data) matches Some(a) && a.func == Func::Req && a.bitmap == 1
                && a.tid == w.tid && a.control == 0x40 && a.data.len() == 0 && a.user_bytes.len()
                == 4 && a.user_bytes[0] == 8 && a.user_bytes[1] == 0 && a.user_bytes[2] * 256
                + a.user_bytes[3] == w.start)
        }),
        ZONE_INTERVAL == 2000,
{
    let a = node::zone_list_request_of(w.tid, w.start);
    wire::atp::law_round_trip(a);
    assert(a.bytes().len() <= 586);
    law_a_datagram_goes_out(n, 128, w.router, 6, 3, a.bytes());
}

/// Law: a page goes on from where it began by as many names as it held, until
/// one is marked the last, is empty, or runs past the last number there is.
pub proof fn law_pages_follow_each_other(start: u16, last: bool, zones: Seq<Seq<char>>)
    requires
        zones.len() < 0x10000,
    ensures
        node::next_start_of(start, ZipAtpView::Reply { last, zones }) == (if !last && zones.len() > 0
            && start + zones.len() < 0x10000 {
            Some((start + zones.len()) as u16)
        } else {
            None
        }),
{
}

/// Law: the page that was asked for adds its names, each once; the walk goes on
/// behind it under another number, or is complete. A page that does not come is
/// asked for three times.
pub proof fn law_a_page_is_taken(n: NodeView, w: ZoneWalkView, last: bool, zones: Seq<Seq<char>>)
    requires
        zones.len() < 0x10000,
    ensures
        ({
            let (m, v) = n.paged(w, ZipAtpView::Reply { last, zones });
            let on = !last && zones.len() > 0 && w.start + zones.len() < 0x10000 && w.page < 1000;
            &&& v.zones == gathered(w.zones, zones) && v.router == w.router
            &&& on ==> v.start == w.start + zones.len() && v.page == w.page + 1 && v.tries == 1
                && v.state == w.state && v.tid == m.next_id && m.next_id != n.next_id
            &&& !on ==> v.state == WalkState::Complete
        }),
        w.state == WalkState::Asking && w.tries < 3 ==> crate::runtime::walk_waited(w) == (
        ZoneWalkView { tries: (w.tries + 1) as u32, ..w }),
        w.state == WalkState::Asking && w.tries >= 3 ==> crate::runtime::walk_waited(w).state
            == WalkState::TimedOut,
{
}

// ----------------------------------------------------------------------- pings

/// Law: a probe is an echo request from our socket 128 to socket 4 of the
/// target, and whoever echoes its data answers that probe and no other.
pub proof fn law_a_ping_asks_and_is_answered(n: NodeView, ping: Ping, d: DdpView, other: u32)
    ensures
        ({
            let f = n.ping_sends(ping);
            DdpView::parse(f.payload) matches Some(q) && carries(
                n,
                f,
                128,
                ping.target,
                4,
                4,
                q.data,
            ) && (AepView::parse(q.data) matches Some(a) && a.func == Echo::Request && {
                let back = BodyView::Ddp(
                    d,
                    DdpBodyView::Aep(AepView { func: Echo::Reply, data: a.data }),
                );
                &&& a.data.len() == 8
                &&& ping.seq < ping.count && !ping.answered ==> ping.answer_in(back) == Some(d.src)
                &&& other != ping.seq ==> (Ping { seq: other, ..ping }).answer_in(back) is None
                &&& other != ping.magic ==> (Ping { magic: other, ..ping }).answer_in(back) is None
            })
        }),
        PING_INTERVAL == 1000,
{
    let a = AepView {
        func: Echo::Request,
        data: node::be32(ping.magic) + node::be32(ping.seq),
    };
    wire::aep::law_round_trip(a);
    assert(a.bytes().len() <= 586);
    law_a_datagram_goes_out(n, 128, ping.target, 4, 4, a.bytes());
    node::law_echoes_are_recognised(d, ping.magic, ping.seq);
}

// --------------------------------------------------------------- what is typed

/// Where a character stands that does not stand before.
proof fn lemma_first_place(s: Seq<char>, c: char, i: int)
    requires
        0 <= i < s.len(),
        s[i] == c,
        forall|j: int| 0 <= j < i ==> (#[trigger] s[j]) != c,
    ensures
        chars::index_of_char(s, c) == i,
{
    chars::lemma_index_of_char(s, c);
}

proof fn lemma_nowhere(s: Seq<char>, c: char)
    requires
        forall|j: int| 0 <= j < s.len() ==> (#[trigger] s[j]) != c,
    ensures
        chars::index_of_char(s, c) == -1,
{
    chars::lemma_index_of_char(s, c);
}

/// A numeral is read as the number it is of.
proof fn lemma_numeral(n: nat)
    ensures
        fmt::dec(n).len() > 0,
        chars::all_digits(fmt::dec(n)),
        chars::digits_value(fmt::dec(n)) == n,
    decreases n,
{
    let s = fmt::dec(n);
    if n < 10 {
        assert(s.drop_last() =~= Seq::empty());
        reveal_with_fuel(chars::digits_value, 2);
    } else {
        lemma_numeral(n / 10);
        assert(s.drop_last() =~= fmt::dec(n / 10));
        assert forall|i: int| 0 <= i < s.len() implies '0' <= #[trigger] s[i] <= '9' by {
            if i < fmt::dec(n / 10).len() {
                assert(s[i] == fmt::dec(n / 10)[i]);
            }
        }
    }
}

/// Law: an address is read from its printed form, network and node in decimal
/// with a dot between them, unless its node is 0; and no text is read as an
/// address of node 0.
pub proof fn law_addresses_read_as_they_print(a: Addr, text: Seq<char>)
    ensures
        a.node != 0 ==> node::addr_of(fmt::dec(a.net as nat) + seq!['.'] + fmt::dec(a.node as nat))
            == Some(a),
        a.node == 0 ==> node::addr_of(fmt::dec(a.net as nat) + seq!['.'] + fmt::dec(0)) is None,
        node::addr_of(text) matches Some(b) ==> b.node != 0,
        (forall|i: int| 0 <= i < text.len() ==> (#[trigger] text[i]) != '.') ==> node::addr_of(text)
            is None,
{
    let x = fmt::dec(a.net as nat);
    let y = fmt::dec(a.node as nat);
    let s = x + seq!['.'] + y;
    lemma_numeral(a.net as nat);
    lemma_numeral(a.node as nat);
    assert forall|j: int| 0 <= j < x.len() implies (#[trigger] s[j]) != '.' by {
        assert('0' <= x[j] <= '9');
    }
    assert(s[x.len() as int] == '.');
    lemma_first_place(s, '.', x.len() as int);
    assert(s.take(x.len() as int) =~= x);
    assert(s.skip(x.len() as int + 1) =~= y);
    assert('0' <= x[0] <= '9' && '0' <= y[0] <= '9');
    if forall|i: int| 0 <= i < text.len() ==> (#[trigger] text[i]) != '.' {
        lemma_nowhere(text, '.');
    }
}

/// Text without NBP punctuation.
pub open spec fn plain(s: Seq<char>) -> bool {
    forall|i: int| 0 <= i < s.len() ==> (#[trigger] s[i]) != ':' && s[i] != '@'
}

/// Law: a target with a colon or an at sign is a name: what stands before the
/// at sign is object and type with a colon between them, the type `=` where
/// there is none, and what stands behind it is the zone. Anything else is an
/// address or nothing.
pub proof fn law_targets_are_names_or_addresses(object: Seq<char>, typ: Seq<char>, zone: Seq<char>)
    requires
        plain(object),
        plain(typ),
    ensures
        node::target_of(object + seq![':'] + typ + seq!['@'] + zone) == Some(
            TargetView::Name { object, typ, zone: Some(zone) },
        ),
        node::target_of(object + seq![':'] + typ) == Some(
            TargetView::Name { object, typ, zone: None },
        ),
        node::target_of(object + seq!['@'] + zone) == Some(
            TargetView::Name { object, typ: seq!['='], zone: Some(zone) },
        ),
        node::target_of(object) == (match node::addr_of(object) {
            Some(a) => Some(TargetView::Addr(a)),
            None => None,
        }),
{
    let n = object.len() as int;
    let m = typ.len() as int;
    let ot = object + seq![':'] + typ;
    assert forall|j: int| 0 <= j < ot.len() implies (#[trigger] ot[j]) != '@' by {
        if j < n {
            assert(ot[j] == object[j]);
        } else if j > n {
            assert(ot[j] == typ[j - n - 1]);
        }
    }
    assert forall|j: int| 0 <= j < n implies (#[trigger] ot[j]) != ':' by {
        assert(ot[j] == object[j]);
    }
    assert(ot[n] == ':');
    lemma_first_place(ot, ':', n);
    lemma_nowhere(ot, '@');
    assert(ot.take(n) =~= object);
    assert(ot.skip(n + 1) =~= typ);
    let full = object + seq![':'] + typ + seq!['@'] + zone;
    let k = ot.len() as int;
    assert forall|j: int| 0 <= j < k implies (#[trigger] full[j]) != '@' by {
        assert(full[j] == ot[j]);
    }
    assert(full[k] == '@');
    lemma_first_place(full, '@', k);
    assert(full.take(k) =~= ot);
    assert(full.skip(k + 1) =~= zone);
    let oz = object + seq!['@'] + zone;
    assert forall|j: int| 0 <= j < n implies (#[trigger] oz[j]) != '@' by {
        assert(oz[j] == object[j]);
    }
    assert(oz[n] == '@');
    lemma_first_place(oz, '@', n);
    assert(oz.take(n) =~= object);
    assert(oz.skip(n + 1) =~= zone);
    lemma_nowhere(object, ':');
    lemma_nowhere(object, '@');
    reveal_strlit("=");
    assert("="@ =~= seq!['=']);
}

} // verus!
