//! What a node on an AppleTalk network says, and what it makes of what it
//! hears: claiming an address, defending it, asking questions.

use vstd::prelude::*;
use vstd::slice::*;
use vstd::string::*;

use crate::addr::MacAddr;
use crate::amt::Amt;
use crate::chars;
use crate::fmt;
use crate::wire::aep::Echo;
use crate::wire::atp::{AtpView, Func};
use crate::wire::ddp::DdpView;
use crate::wire::frame::{BodyView, DdpBodyView, FrameView, PacketView};
use crate::wire::nbp::{NbpFunc, NbpTuple, NbpTupleView, NbpView};
use crate::wire::zip::{ZipAtpView, ZipView};
use crate::wire::{Aarp, Addr, Atp, Body, Ddp, DdpBody, Frame, Nbp, Packet, Zip, ZipAtp};

verus! {

/// Where ELAP sends AppleTalk broadcasts, and where AARP probes and requests
/// belong too. Non-AppleTalk nodes never register on it.
#[verifier::allow_in_spec]
pub fn broadcast_mac() -> MacAddr
    returns
        MacAddr(0x09, 0x00, 0x07, 0xff, 0xff, 0xff),
{
    MacAddr(0x09, 0x00, 0x07, 0xff, 0xff, 0xff)
}

/// The bottom of the dynamic socket range. One conversation at a time means
/// one socket is enough.
pub const OUR_SOCKET: u8 = 128;

/// A datagram with its derived fields left for `encode`: the length is
/// recomputed there, and a zero checksum means "sender computed none", which
/// is legal and what we want.
pub open spec fn datagram_of(
    src: Addr,
    src_socket: u8,
    dst: Addr,
    dst_socket: u8,
    typ: u8,
    data: Seq<u8>,
) -> DdpView {
    DdpView { hops: 0, length: 0, checksum: 0, dst, dst_socket, src, src_socket, typ, data }
}

pub fn datagram(
    src: Addr,
    src_socket: u8,
    dst: Addr,
    dst_socket: u8,
    typ: u8,
    data: Vec<u8>,
) -> (r: Ddp)
    ensures
        r.deep_view() == datagram_of(src, src_socket, dst, dst_socket, typ, data@),
{
    Ddp { hops: 0, length: 0, checksum: 0, dst, dst_socket, src, src_socket, typ, data }
}

/// Always Phase 2 -- 802.3 + LLC + SNAP. Every network this is likely to meet
/// is Phase 2.
pub open spec fn frame_of(src: MacAddr, dst: MacAddr, proto: u16, payload: Seq<u8>) -> FrameView {
    FrameView { dst, src, proto, snap: true, payload }
}

pub fn frame(src: MacAddr, dst: MacAddr, proto: u16, payload: Vec<u8>) -> (r: Frame)
    ensures
        r.deep_view() == frame_of(src, dst, proto, payload@),
{
    Frame { dst, src, proto, snap: true, payload }
}

/// The provisional address a seed picks: a node ID from 1 to 253 and a network
/// number from the startup range $FF00-$FFFE. Node IDs 0, $FE and
/// $FF are reserved on Ethernet and token ring.
pub open spec fn address_of(seed: u64) -> Addr {
    Addr { net: (0xff00 + seed % 0xff) as u16, node: (1 + (seed / 0x10000) % 253) as u8 }
}

pub fn pick_address(seed: u64) -> (r: Addr)
    ensures
        r == address_of(seed),
        0xff00 <= r.net <= 0xfffe,
        1 <= r.node <= 253,
{
    Addr { net: 0xff00 + (seed % 0xff) as u16, node: 1 + ((seed / 0x10000) % 253) as u8 }
}

// -------------------------------------------------------------------- AARP

/// An AARP Probe: "is anyone using this address?". The target hardware
/// address is zero because that is exactly what we are asking for.
pub open spec fn probe_of(addr: Addr, mac: MacAddr) -> Aarp {
    Aarp { op: 3, src_hw: mac, src: addr, dst_hw: MacAddr(0, 0, 0, 0, 0, 0), dst: addr }
}

pub fn probe(addr: Addr, mac: MacAddr) -> (r: Aarp)
    ensures
        r == probe_of(addr, mac),
{
    Aarp { op: 3, src_hw: mac, src: addr, dst_hw: MacAddr::zero(), dst: addr }
}

/// "Yes, that address is mine, at this MAC."
pub open spec fn response_of(ours: Addr, our_mac: MacAddr, to: Addr, to_mac: MacAddr) -> Aarp {
    Aarp { op: 2, src_hw: our_mac, src: ours, dst_hw: to_mac, dst: to }
}

pub fn aarp_response(ours: Addr, our_mac: MacAddr, to: Addr, to_mac: MacAddr) -> (r: Aarp)
    ensures
        r == response_of(ours, our_mac, to, to_mac),
{
    Aarp { op: 2, src_hw: our_mac, src: ours, dst_hw: to_mac, dst: to }
}

/// "Who has this address?"
pub open spec fn request_of(ours: Addr, our_mac: MacAddr, target: Addr) -> Aarp {
    Aarp { op: 1, src_hw: our_mac, src: ours, dst_hw: MacAddr(0, 0, 0, 0, 0, 0), dst: target }
}

pub fn aarp_request(ours: Addr, our_mac: MacAddr, target: Addr) -> (r: Aarp)
    ensures
        r == request_of(ours, our_mac, target),
{
    Aarp { op: 1, src_hw: our_mac, src: ours, dst_hw: MacAddr::zero(), dst: target }
}

#[derive(Debug, PartialEq, Eq, Clone, Copy, Structural)]
pub enum AarpAction {
    /// Someone else holds, or is also claiming, the address we want.
    Conflict,
    /// A request for our address, to be answered at this MAC.
    AnswerTo(MacAddr),
    Ignore,
}

/// What an incoming packet means for our address. `probing` is true until the
/// address is claimed -- a probing node answers nothing.
pub open spec fn action_on(b: BodyView, ours: Addr, our_mac: MacAddr, probing: bool) -> AarpAction {
    match b {
        BodyView::Aarp(a) => if a.op == 2 && a.src == ours {
            // A response for the address means it is taken.
            AarpAction::Conflict
        } else if a.op == 3 && a.src == ours && a.src_hw != our_mac {
            // Someone else probing for the same address. While we are probing
            // too, both sides give up. Once claimed, we defend it by
            // answering: that is how the prober learns it is taken.
            if probing {
                AarpAction::Conflict
            } else {
                AarpAction::AnswerTo(a.src_hw)
            }
        } else if a.op == 1 && a.dst == ours && !probing {
            AarpAction::AnswerTo(a.src_hw)
        } else {
            AarpAction::Ignore
        },
        _ => AarpAction::Ignore,
    }
}

pub fn aarp_action(p: &Packet, ours: Addr, our_mac: MacAddr, probing: bool) -> (r: AarpAction)
    ensures
        r == action_on(p.deep_view().body, ours, our_mac, probing),
{
    match &p.body {
        Body::Aarp(a) => if a.op == 2 && a.src == ours {
            AarpAction::Conflict
        } else if a.op == 3 && a.src == ours && a.src_hw != our_mac {
            if probing {
                AarpAction::Conflict
            } else {
                AarpAction::AnswerTo(a.src_hw)
            }
        } else if a.op == 1 && a.dst == ours && !probing {
            AarpAction::AnswerTo(a.src_hw)
        } else {
            AarpAction::Ignore
        },
        _ => AarpAction::Ignore,
    }
}

/// What a packet tells of its sender, so that a later directed frame has
/// somewhere to go. Gleaning is optional, and deliberately excludes
/// Probes, whose source address is only tentative.
pub open spec fn gleaned(amt: Map<Addr, MacAddr>, p: PacketView) -> Map<Addr, MacAddr> {
    match p.body {
        BodyView::Aarp(a) => if a.op != 3 {
            amt.insert(a.src, a.src_hw)
        } else {
            amt
        },
        BodyView::Ddp(d, _) => amt.insert(d.src, p.frame.src),
        BodyView::Unknown => amt,
    }
}

pub fn glean(amt: &mut Amt, p: &Packet)
    ensures
        final(amt)@ == gleaned(old(amt)@, p.deep_view()),
{
    match &p.body {
        Body::Aarp(a) => if a.op != 3 {
            amt.insert(a.src, a.src_hw);
        },
        Body::Ddp(d, _) => amt.insert(d.src, p.frame.src),
        Body::Unknown => {},
    }
}

/// Where a directed frame goes. Unknown means broadcast: everyone on the cable
/// hears it, and the one it is for answers.
pub open spec fn mac_of(amt: Map<Addr, MacAddr>, a: Addr) -> MacAddr {
    if amt.contains_key(a) {
        amt[a]
    } else {
        broadcast_mac()
    }
}

pub fn mac_for(amt: &Amt, a: Addr) -> (r: MacAddr)
    ensures
        r == mac_of(amt@, a),
{
    match amt.get(&a) {
        Some(m) => m,
        None => broadcast_mac(),
    }
}

// --------------------------------------------------------------------- ZIP

/// How much of our address the user pinned down for us.
#[derive(Debug, Clone, Copy, PartialEq, Eq, Structural)]
pub enum Want {
    /// Nothing: pick a provisional address in the startup range and ask a
    /// router what this cable really is.
    Discover,
    /// This network, our choice of node -- "I am on this net, give me a node".
    Net(u16),
    /// Exactly this address.
    Addr(Addr),
}

#[derive(Debug, Clone, Copy, PartialEq, Eq)]
pub enum NetInfo {
    /// Our provisional network number is valid on this cable.
    Keep,
    /// It is not; pick again inside this range.
    Repick { range: (u16, u16) },
}

/// What a ZIP GetNetInfo reply says: whether our provisional address survives,
/// the zone name to adopt, and the address of the router that answered -- which
/// is the only way we learn of a router.
///
/// A reply directed at someone else is not ours. Replies are often broadcast,
/// so the address alone cannot tell ours apart: what tells is the
/// echoed zone name. A range whose end precedes its start is not one.
pub open spec fn verdict_on(
    b: BodyView,
    provisional: Addr,
    requested_zone: Seq<char>,
) -> Option<(NetInfo, Seq<char>, Addr)> {
    match b {
        BodyView::Ddp(
            d,
            DdpBodyView::Zip(ZipView::NetInfoReply { range, zone, default_zone, .. }),
        ) => if (d.dst.node == 255 || d.dst == provisional) && zone == requested_zone && range.0
            <= range.1 {
            Some(
                (
                    if range.0 <= provisional.net <= range.1 {
                        NetInfo::Keep
                    } else {
                        NetInfo::Repick { range }
                    },
                    // A default zone means the one asked for was not valid
                    // here and this is the name to use instead.
                    match default_zone {
                        Some(z) => z,
                        None => zone,
                    },
                    d.src,
                ),
            )
        } else {
            None
        },
        _ => None,
    }
}

pub fn netinfo_verdict(p: &Packet, provisional: Addr, requested_zone: &str) -> (r: Option<
    (NetInfo, String, Addr),
>)
    ensures
        match (r, verdict_on(p.deep_view().body, provisional, requested_zone@)) {
            (Some((v, z, a)), Some(want)) => (v, z@, a) == want,
            (None, None) => true,
            _ => false,
        },
{
    if let Body::Ddp(d, DdpBody::Zip(Zip::NetInfoReply { range, zone, default_zone, .. })) = &p.body
    {
        // Capture is promiscuous and another booting node's reply is on the
        // wire too.
        if d.dst.node != 255 && d.dst != provisional {
            return None;
        }
        let asked = fmt::text(requested_zone);
        if *zone != asked {
            return None;
        }
        // Fail closed: with no verdict the provisional address is kept, exactly
        // as if no router had answered.
        if range.1 < range.0 {
            return None;
        }
        let name = match default_zone {
            Some(z) => z.clone(),
            None => zone.clone(),
        };
        let verdict = if range.0 <= provisional.net && provisional.net <= range.1 {
            NetInfo::Keep
        } else {
            NetInfo::Repick { range: *range }
        };
        return Some((verdict, name, d.src));
    }
    None
}

/// ZIP's GetZoneList rides ATP with the function in the user bytes: code 8,
/// then the 1-based index of the first zone name wanted. At-least-
/// once, and a bitmap of one because the reply is always a single packet.
pub open spec fn zone_list_request_of(tid: u16, start: u16) -> AtpView {
    AtpView {
        func: Func::Req,
        control: 0x40,
        bitmap: 0x01,
        tid,
        user_bytes: seq![8u8, 0u8] + crate::wire::be16(start),
        data: Seq::empty(),
    }
}

pub fn zone_list_request(tid: u16, start: u16) -> (r: Atp)
    ensures
        r.deep_view() == zone_list_request_of(tid, start),
{
    let hi = (start / 256) as u8;
    let lo = (start % 256) as u8;
    let user: [u8; 4] = [8, 0, hi, lo];
    assert(user@ =~= seq![8u8, 0u8] + crate::wire::be16(start));
    Atp::request(tid, 0x01, None, user, Vec::new())
}

/// Where the next request in the series starts, or None when the list is
/// complete. The next index is this one plus however many names came back. An
/// empty page that also claims more to come is malformed -- a router past the
/// end of the list sets the flag -- and ends the series too.
pub open spec fn next_start_of(start: u16, reply: ZipAtpView) -> Option<u16> {
    match reply {
        ZipAtpView::Reply { last, zones } => if !last && zones.len() > 0 && start + zones.len()
            % 0x10000 <= u16::MAX {
            Some((start + zones.len() % 0x10000) as u16)
        } else {
            None
        },
        _ => None,
    }
}

pub fn next_start(start: u16, reply: &ZipAtp) -> (r: Option<u16>)
    ensures
        r == next_start_of(start, reply.deep_view()),
{
    match reply {
        ZipAtp::Reply { last, zones } => if !*last && zones.len() > 0 {
            assert(zones.deep_view().len() == zones@.len());
            let more: u16 = (zones.len() % 0x10000) as u16;
            start.checked_add(more)
        } else {
            None
        },
        _ => None,
    }
}

/// Whether a packet is the ATP response completing our zone-list request.
/// Capture is promiscuous and GetZoneList is at-least-once with no release, so
/// another node's reply -- or a stale retransmission of our own previous page --
/// is on the wire too and must not be mistaken for this page's answer.
pub open spec fn answers_page(b: BodyView, router: Addr, tid: u16) -> bool {
    b matches BodyView::Ddp(d, DdpBodyView::Atp(a)) && d.src == router && a.func == Func::Resp
        && a.tid == tid
}

pub fn zone_reply_matches(p: &Packet, router: Addr, tid: u16) -> (r: bool)
    ensures
        r == answers_page(p.deep_view().body, router, tid),
{
    match &p.body {
        Body::Ddp(d, DdpBody::Atp(a)) => d.src == router && a.func == Func::Resp && a.tid == tid,
        _ => false,
    }
}

// --------------------------------------------------------------------- NBP

/// A lookup carries exactly one tuple: the name being asked about, with the
/// requester's own address in the address field so responders know where to
/// send the LkUp-Reply.
pub open spec fn lookup_of(
    func: NbpFunc,
    id: u8,
    ours: Addr,
    socket: u8,
    object: Seq<char>,
    typ: Seq<char>,
    zone: Seq<char>,
) -> NbpView {
    NbpView {
        func,
        id,
        // The enumerator is ignored by the recipient of a lookup; only replies
        // carry a meaningful one.
        tuples: seq![NbpTupleView { addr: ours, socket, enumerator: 0, object, typ, zone }],
    }
}

pub fn lookup_request(
    func: NbpFunc,
    id: u8,
    ours: Addr,
    socket: u8,
    object: &str,
    typ: &str,
    zone: &str,
) -> (r: Nbp)
    ensures
        r.deep_view() == lookup_of(func, id, ours, socket, object@, typ@, zone@),
{
    let t = NbpTuple {
        addr: ours,
        socket,
        enumerator: 0,
        object: fmt::text(object),
        typ: fmt::text(typ),
        zone: fmt::text(zone),
    };
    let ghost tv = t.deep_view();
    let mut tuples: Vec<NbpTuple> = Vec::new();
    tuples.push(t);
    assert(tuples.deep_view() =~= seq![tv]);
    Nbp { func, id, tuples }
}

/// The tuples in a LkUp-Reply that answers lookup `id`, or nothing.
pub open spec fn replies_in(b: BodyView, id: u8) -> Seq<NbpTupleView> {
    match b {
        BodyView::Ddp(_, DdpBodyView::Nbp(n)) => if n.func == NbpFunc::LkUpReply && n.id == id {
            n.tuples
        } else {
            Seq::empty()
        },
        _ => Seq::empty(),
    }
}

pub fn lookup_replies(p: &Packet, id: u8) -> (r: &[NbpTuple])
    ensures
        r.deep_view() == replies_in(p.deep_view().body, id),
{
    match &p.body {
        Body::Ddp(_, DdpBody::Nbp(n)) => if n.func == NbpFunc::LkUpReply && n.id == id {
            let r = n.tuples.as_slice();
            assert(r.deep_view() =~= n.tuples.deep_view());
            return r;
        },
        _ => {},
    }
    let none: &[NbpTuple] = &[];
    assert(none.deep_view() =~= Seq::empty());
    none
}

/// The same entity: the dedupe key leaves the zone out, for a responder that
/// spells its zone differently across replies is still the same one.
pub open spec fn same_entity(a: NbpTupleView, b: NbpTupleView) -> bool {
    a.addr == b.addr && a.socket == b.socket && a.enumerator == b.enumerator && a.object == b.object
        && a.typ == b.typ
}

pub open spec fn has_entity(ts: Seq<NbpTupleView>, t: NbpTupleView) -> bool {
    exists|i: int| 0 <= i < ts.len() && same_entity(#[trigger] ts[i], t)
}

/// With the tuples we have not already seen appended. Requests are
/// retransmitted, so the same entity answers more than once.
pub open spec fn merged(into: Seq<NbpTupleView>, ts: Seq<NbpTupleView>) -> Seq<NbpTupleView>
    decreases ts.len(),
{
    if ts.len() == 0 {
        into
    } else {
        let m = merged(into, ts.drop_last());
        if has_entity(m, ts.last()) {
            m
        } else {
            m.push(ts.last())
        }
    }
}

fn holds_entity(ts: &Vec<NbpTuple>, t: &NbpTuple) -> (r: bool)
    ensures
        r == has_entity(ts.deep_view(), t.deep_view()),
{
    let ghost v = ts.deep_view();
    let mut i: usize = 0;
    while i < ts.len()
        invariant
            i <= ts@.len(),
            v == ts.deep_view(),
            forall|j: int| 0 <= j < i ==> !same_entity(#[trigger] v[j], t.deep_view()),
        decreases ts@.len() - i,
    {
        let e = &ts[i];
        assert(v[i as int] == e.deep_view());
        if e.addr == t.addr && e.socket == t.socket && e.enumerator == t.enumerator && e.object
            == t.object && e.typ == t.typ {
            return true;
        }
        i = i + 1;
    }
    false
}

/// Appends tuples we have not already seen.
pub fn merge(into: &mut Vec<NbpTuple>, tuples: &[NbpTuple])
    ensures
        final(into).deep_view() == merged(old(into).deep_view(), tuples.deep_view()),
{
    let ghost start = into.deep_view();
    let ghost ts = tuples.deep_view();
    assert(ts.take(0) =~= Seq::empty());
    let mut i: usize = 0;
    while i < tuples.len()
        invariant
            i <= tuples@.len(),
            ts == tuples.deep_view(),
            ts.len() == tuples@.len(),
            into.deep_view() == merged(start, ts.take(i as int)),
        decreases tuples@.len() - i,
    {
        assert(ts.take(i + 1).drop_last() =~= ts.take(i as int));
        assert(ts.take(i + 1).last() == tuples@[i as int].deep_view());
        if !holds_entity(into, &tuples[i]) {
            let ghost before = into.deep_view();
            let t = tuples[i].clone();
            let ghost tv = t.deep_view();
            into.push(t);
            assert(into.deep_view() =~= before.push(tv));
        }
        i = i + 1;
    }
    assert(ts.take(i as int) =~= ts);
}

/// No entity is listed twice.
pub open spec fn entities_apart(ts: Seq<NbpTupleView>) -> bool {
    forall|i: int, j: int|
        0 <= i < j < ts.len() ==> !same_entity(#[trigger] ts[i], #[trigger] ts[j])
}

/// Law: however often an entity answers, merging lists it once; nothing listed
/// before is lost, and everything that answered is listed.
pub proof fn law_merging_lists_each_entity_once(into: Seq<NbpTupleView>, ts: Seq<NbpTupleView>)
    ensures
        entities_apart(into) ==> entities_apart(merged(into, ts)),
        into.is_prefix_of(merged(into, ts)),
        forall|i: int| 0 <= i < ts.len() ==> has_entity(merged(into, ts), #[trigger] ts[i]),
    decreases ts.len(),
{
    if ts.len() > 0 {
        let b = ts.drop_last();
        law_merging_lists_each_entity_once(into, b);
        let m = merged(into, b);
        let r = merged(into, ts);
        assert forall|i: int| 0 <= i < ts.len() implies has_entity(r, #[trigger] ts[i]) by {
            if i < b.len() {
                assert(b[i] == ts[i]);
                let k = choose|k: int| 0 <= k < m.len() && same_entity(#[trigger] m[k], b[i]);
                assert(same_entity(r[k], ts[i]));
            } else if !has_entity(m, ts.last()) {
                assert(same_entity(r[m.len() as int], ts[i]));
            }
        }
        if entities_apart(into) && !has_entity(m, ts.last()) {
            assert forall|i: int, j: int| 0 <= i < j < r.len() implies !same_entity(
                #[trigger] r[i],
                #[trigger] r[j],
            ) by {
                assert(r[i] == m[i]);
                if j < m.len() {
                    assert(r[j] == m[j]);
                }
            }
        }
    }
}

/// Law: an answer heard again changes nothing.
pub proof fn law_merging_again_changes_nothing(into: Seq<NbpTupleView>, ts: Seq<NbpTupleView>)
    ensures
        merged(merged(into, ts), ts) == merged(into, ts),
{
    law_merging_lists_each_entity_once(into, ts);
    lemma_merge_of_known(merged(into, ts), ts);
}

proof fn lemma_merge_of_known(into: Seq<NbpTupleView>, ts: Seq<NbpTupleView>)
    requires
        forall|i: int| 0 <= i < ts.len() ==> has_entity(into, #[trigger] ts[i]),
    ensures
        merged(into, ts) == into,
    decreases ts.len(),
{
    if ts.len() > 0 {
        let b = ts.drop_last();
        assert forall|i: int| 0 <= i < b.len() implies has_entity(into, #[trigger] b[i]) by {
            assert(b[i] == ts[i]);
        }
        lemma_merge_of_known(into, b);
        assert(has_entity(into, ts[ts.len() - 1]));
    }
}

// --------------------------------------------------------------------- AEP

/// AEP carries no sequence number: the replier echoes the data back unchanged,
/// so the pinger plants its own marker and matches on that.
pub open spec fn be32(n: u32) -> Seq<u8> {
    seq![
        (n / 0x1000000) as u8,
        ((n / 0x10000) % 256) as u8,
        ((n / 256) % 256) as u8,
        (n % 256) as u8,
    ]
}

pub open spec fn u32_at(b: Seq<u8>, i: int) -> u32 {
    (((b[i] * 256 + b[i + 1]) * 256 + b[i + 2]) * 256 + b[i + 3]) as u32
}

pub(crate) fn push32(out: &mut Vec<u8>, n: u32)
    ensures
        final(out)@ == old(out)@ + be32(n),
{
    out.push((n / 0x1000000) as u8);
    out.push(((n / 0x10000) % 256) as u8);
    out.push(((n / 256) % 256) as u8);
    out.push((n % 256) as u8);
    assert(out@ =~= old(out)@ + be32(n));
}

fn read32(b: &[u8], i: usize) -> (r: u32)
    requires
        i + 4 <= b@.len(),
    ensures
        r == u32_at(b@, i as int),
{
    ((b[i] as u32 * 256 + b[i + 1] as u32) * 256 + b[i + 2] as u32) * 256 + b[i + 3] as u32
}

pub fn echo_data(magic: u32, seq: u32) -> (r: Vec<u8>)
    ensures
        r@ == be32(magic) + be32(seq),
{
    let mut v: Vec<u8> = Vec::new();
    push32(&mut v, magic);
    push32(&mut v, seq);
    assert(v@ =~= be32(magic) + be32(seq));
    v
}

/// The responder's address and our sequence number, for a reply that is ours.
pub open spec fn echo_of(b: BodyView, magic: u32) -> Option<(Addr, u32)> {
    match b {
        BodyView::Ddp(d, DdpBodyView::Aep(a)) => if a.func == Echo::Reply && a.data.len() >= 8
            && u32_at(a.data, 0) == magic {
            Some((d.src, u32_at(a.data, 4)))
        } else {
            None
        },
        _ => None,
    }
}

pub fn echo_match(p: &Packet, magic: u32) -> (r: Option<(Addr, u32)>)
    ensures
        r == echo_of(p.deep_view().body, magic),
{
    match &p.body {
        Body::Ddp(d, DdpBody::Aep(a)) => if a.func == Echo::Reply && a.data.len() >= 8 && read32(
            a.data.as_slice(),
            0,
        ) == magic {
            Some((d.src, read32(a.data.as_slice(), 4)))
        } else {
            None
        },
        _ => None,
    }
}

/// Law: the answer to our own probe is recognised by the marker planted in it.
pub proof fn law_echoes_are_recognised(d: DdpView, magic: u32, seq: u32)
    ensures
        echo_of(
            BodyView::Ddp(
                d,
                DdpBodyView::Aep(
                    crate::wire::aep::AepView {
                        func: Echo::Reply,
                        data: be32(magic) + be32(seq),
                    },
                ),
            ),
            magic,
        ) == Some((d.src, seq)),
{
    let data = be32(magic) + be32(seq);
    assert(data[0] == be32(magic)[0] && data[1] == be32(magic)[1] && data[2] == be32(magic)[2]
        && data[3] == be32(magic)[3]);
    assert(data[4] == be32(seq)[0] && data[5] == be32(seq)[1] && data[6] == be32(seq)[2] && data[7]
        == be32(seq)[3]);
}

// ------------------------------------------------------------------- targets

/// Text that names no address.
#[derive(Debug, PartialEq, Eq)]
pub struct BadAddr {
    pub text: String,
}

/// `net.node`, both decimal. Node 0 is not a valid node ID, so it is rejected
/// rather than producing a datagram nobody can answer.
pub open spec fn addr_of(s: Seq<char>) -> Option<Addr> {
    let i = chars::index_of_char(s, '.');
    if i < 0 {
        None
    } else {
        match (
            chars::number_of(s.take(i), u16::MAX as nat),
            chars::number_of(s.skip(i + 1), u8::MAX as nat),
        ) {
            (Some(net), Some(node)) => if node == 0 {
                None
            } else {
                Some(Addr { net: net as u16, node: node as u8 })
            },
            _ => None,
        }
    }
}

fn addr_in(cs: &Vec<char>) -> (r: Option<Addr>)
    ensures
        r == addr_of(cs@),
{
    let n: usize = cs.len();
    assert(cs@.subrange(0, n as int) =~= cs@);
    match chars::find_char(cs, 0, n, '.') {
        None => None,
        Some(i) => {
            assert(cs@.subrange(0, i as int) =~= cs@.take(i as int));
            assert(cs@.subrange(i + 1, n as int) =~= cs@.skip(i + 1));
            match (
                chars::parse_number(cs, 0, i, u16::MAX as u32),
                chars::parse_number(cs, i + 1, n, u8::MAX as u32),
            ) {
                (Some(net), Some(node)) => if node == 0 {
                    None
                } else {
                    Some(Addr { net: net as u16, node: node as u8 })
                },
                _ => None,
            }
        },
    }
}

pub fn parse_addr(s: &str) -> (r: Result<Addr, BadAddr>)
    ensures
        match r {
            Ok(a) => addr_of(s@) == Some(a),
            Err(e) => addr_of(s@) is None && e.text@ == s@,
        },
{
    let cs = chars::chars(s);
    match addr_in(&cs) {
        Some(a) => Ok(a),
        None => Err(BadAddr { text: fmt::text(s) }),
    }
}

/// What `ping` was aimed at.
#[derive(Debug, PartialEq, Eq)]
pub enum Target {
    Addr(Addr),
    /// Resolved through NBP before pinging. A missing zone means the local one.
    Name { object: String, typ: String, zone: Option<String> },
}

pub enum TargetView {
    Addr(Addr),
    Name { object: Seq<char>, typ: Seq<char>, zone: Option<Seq<char>> },
}

impl DeepView for Target {
    type V = TargetView;

    open spec fn deep_view(&self) -> TargetView {
        match self {
            Target::Addr(a) => TargetView::Addr(*a),
            Target::Name { object, typ, zone } => TargetView::Name {
                object: object@,
                typ: typ@,
                zone: zone.deep_view(),
            },
        }
    }
}

/// A name is anything wearing NBP punctuation: everything from the first at
/// sign on is the zone, and what is left is object and type with a colon
/// between them, the type `=` where there is none. Everything else must be an
/// address.
pub open spec fn target_of(s: Seq<char>) -> Option<TargetView> {
    let at = chars::index_of_char(s, '@');
    if chars::index_of_char(s, ':') < 0 && at < 0 {
        match addr_of(s) {
            Some(a) => Some(TargetView::Addr(a)),
            None => None,
        }
    } else {
        let name = if at >= 0 {
            s.take(at)
        } else {
            s
        };
        let zone = if at >= 0 {
            Some(s.skip(at + 1))
        } else {
            None
        };
        let colon = chars::index_of_char(name, ':');
        Some(
            TargetView::Name {
                object: if colon >= 0 {
                    name.take(colon)
                } else {
                    name
                },
                typ: if colon >= 0 {
                    name.skip(colon + 1)
                } else {
                    "="@
                },
                zone,
            },
        )
    }
}

impl Target {
    pub fn parse(s: &str) -> (r: Result<Target, BadAddr>)
        ensures
            match r {
                Ok(t) => target_of(s@) == Some(t.deep_view()),
                Err(e) => target_of(s@) is None && e.text@ == s@,
            },
    {
        let cs = chars::chars(s);
        let n: usize = cs.len();
        assert(cs@.subrange(0, n as int) =~= cs@);
        let at = chars::find_char(&cs, 0, n, '@');
        let colon = chars::find_char(&cs, 0, n, ':');
        if colon.is_none() && at.is_none() {
            return match addr_in(&cs) {
                Some(a) => Ok(Target::Addr(a)),
                None => Err(BadAddr { text: fmt::text(s) }),
            };
        }
        let end: usize = match at {
            Some(i) => i,
            None => n,
        };
        let ghost name = cs@.subrange(0, end as int);
        let zone = match at {
            Some(i) => {
                assert(cs@.subrange(i + 1, n as int) =~= cs@.skip(i + 1));
                Some(chars::text_of(&cs, i + 1, n))
            },
            None => None,
        };
        assert(name =~= (if at is Some {
            cs@.take(end as int)
        } else {
            cs@
        }));
        let (object, typ) = match chars::find_char(&cs, 0, end, ':') {
            Some(c) => {
                assert(cs@.subrange(0, c as int) =~= name.take(c as int));
                assert(cs@.subrange(c + 1, end as int) =~= name.skip(c + 1));
                (chars::text_of(&cs, 0, c), chars::text_of(&cs, c + 1, end))
            },
            None => (chars::text_of(&cs, 0, end), fmt::text("=")),
        };
        Ok(Target::Name { object, typ, zone })
    }
}

impl std::str::FromStr for Target {
    type Err = BadAddr;

    fn from_str(s: &str) -> (r: Result<Target, BadAddr>)
        ensures
            match r {
                Ok(t) => target_of(s@) == Some(t.deep_view()),
                Err(e) => target_of(s@) is None && e.text@ == s@,
            },
    {
        Target::parse(s)
    }
}

} // verus!
