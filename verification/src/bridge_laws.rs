//! What the bridge is for, said of the frames as they read and of what the
//! bridge knows of each node.

use vstd::prelude::*;

use crate::addr::MacAddr;
use crate::bridge::{residents, ActionView, Ask, BridgeView, Entry, Owed, Side};
use crate::capture::Event;
use crate::fmt;
use crate::node;
use crate::node_laws::everybody;
use crate::repeat::carries_data;
use crate::wire;
use crate::wire::ddp::DdpView;
use crate::wire::frame::{BodyView, PacketView};
use crate::wire::llap::LlapView;
use crate::wire::{Aarp, Addr};

verus! {

/// Known to be on the Ethernet at a MAC, beyond doubt.
pub open spec fn on_ether(b: BridgeView, node: u8, mac: MacAddr) -> bool {
    b.nodes.contains_key(node) && !b.nodes[node].doubted && b.nodes[node].side == Side::Ether(mac)
}

/// Known to be on LocalTalk, beyond doubt.
pub open spec fn on_localtalk(b: BridgeView, node: u8) -> bool {
    b.nodes.contains_key(node) && !b.nodes[node].doubted && b.nodes[node].side == Side::Local
}

/// Known to be on the other side than the one it was heard on.
pub open spec fn out_of_place(b: BridgeView, node: u8, on_ethernet: bool) -> bool {
    b.nodes.contains_key(node) && (b.nodes[node].side is Ether) != on_ethernet
}

/// An address on the bridge's network, or on no network by number.
pub open spec fn here(b: BridgeView, a: Addr) -> bool {
    a.net == b.addr.net || a.net == 0
}

/// An AARP packet of the bridge's, as it reads.
pub open spec fn asks_or_answers(act: ActionView, b: BridgeView, dst: MacAddr, a: Aarp) -> bool {
    act matches ActionView::ToEther(f) && f.snap && f.proto == 0x80f3 && f.src == b.mac && f.dst
        == dst && Aarp::spec_parse(f.payload) == Some(a)
}

/// An ENQ ($81) or ACK ($82) for an ID, which carries it in both node bytes.
pub open spec fn control_for(act: ActionView, node: u8, typ: u8) -> bool {
    act matches ActionView::ToLocal(l) && l.dst == node && l.src == node && l.typ == typ
        && l.data.len() == 0
}

proof fn lemma_aarp(a: Aarp)
    ensures
        Aarp::spec_parse(a.bytes()) == Some(a),
{
    wire::aarp::law_round_trip(a, Seq::empty());
    assert(a.bytes() + Seq::<u8>::empty() =~= a.bytes());
}

/// The question whether an ID is held on the Ethernet: a Probe for it where an
/// ACK is owed for the answer, and a Request for it otherwise.
pub open spec fn asks_ethernet(act: ActionView, b: BridgeView, node: u8, claim: bool) -> bool {
    let target = Addr { net: b.addr.net, node };
    let zero = MacAddr(0, 0, 0, 0, 0, 0);
    asks_or_answers(
        act,
        b,
        everybody(),
        if claim {
            Aarp { op: 3, src_hw: b.mac, src: target, dst_hw: zero, dst: target }
        } else {
            Aarp { op: 1, src_hw: b.mac, src: b.addr, dst_hw: zero, dst: target }
        },
    )
}

/// Law: a question about an ID goes to one link: to the Ethernet as an AARP
/// Probe where a LocalTalk node claims the ID and as a Request otherwise, and to
/// LocalTalk as an ENQ; and only while no question about it is out.
pub proof fn law_questions_read_as_questions(
    b: BridgeView,
    node: u8,
    link: Ask,
    owed: Owed,
    moved_to: Option<Side>,
    now: u64,
)
    ensures
        ({
            let (n, acts) = b.asked(node, link, owed, moved_to, now);
            &&& b.pending.contains_key(node) ==> n == b && acts.len() == 0
            &&& !b.pending.contains_key(node) ==> acts.len() == 1 && n.pending.contains_key(node)
                && n.pending[node].asked == now && n.pending[node].owed == owed
                && n.pending[node].moved_to == moved_to && n.nodes == b.nodes
            &&& !b.pending.contains_key(node) && link == Ask::Ether ==> asks_ethernet(
                acts[0],
                b,
                node,
                owed == Owed::LocalAck,
            )
            &&& !b.pending.contains_key(node) && link == Ask::Local ==> control_for(
                acts[0],
                node,
                0x81,
            )
        }),
{
    let target = Addr { net: b.addr.net, node };
    lemma_aarp(node::probe_of(target, b.mac));
    lemma_aarp(node::request_of(b.addr, b.mac, target));
}

// ---------------------------------------------------------------- who is where

/// Law: a node heard for the first time is believed to be where it was heard;
/// one heard again where it is believed to be is confirmed. One heard on the
/// other side is in doubt from then on, and the side that was believed is asked.
pub proof fn law_nodes_are_believed_where_heard(b: BridgeView, node: u8, side: Side, now: u64)
    requires
        node != 0,
        node != 255,
        node != b.addr.node,
        !b.pending.contains_key(node),
    ensures
        ({
            let (n, acts) = b.confirmed(node, side, now);
            let known = b.nodes.contains_key(node);
            let same = (b.nodes[node].side is Ether) == (side is Ether);
            &&& !known || (same && !b.nodes[node].doubted) ==> n.nodes == b.nodes.insert(
                node,
                Entry { side, confirmed: now, doubted: false },
            ) && acts.len() == 0
            &&& known && !same && !b.nodes[node].doubted ==> n.nodes.contains_key(node)
                && n.nodes[node].doubted && n.nodes[node].side == b.nodes[node].side
                && n.pending.contains_key(node) && n.pending[node].moved_to == Some(side)
                && acts.len() == 1 && (b.nodes[node].side is Ether ==> asks_ethernet(
                acts[0],
                b,
                node,
                false,
            )) && (b.nodes[node].side == Side::Local ==> control_for(acts[0], node, 0x81))
            &&& known && b.nodes[node].doubted ==> n == b && acts.len() == 0
            &&& forall|k: u8|
                k != node ==> n.nodes.contains_key(k) == b.nodes.contains_key(k) && (
                b.nodes.contains_key(k) ==> #[trigger] n.nodes[k] == b.nodes[k])
        }),
{
    if b.nodes.contains_key(node) {
        let e = Entry { side: b.nodes[node].side, confirmed: now, doubted: true };
        law_questions_read_as_questions(
            b.with_entry(node, e),
            node,
            b.nodes[node].side.spec_link(),
            Owed::Nothing,
            Some(side),
            now,
        );
    }
}

/// Law: what a bridge knows of a node is forgotten thirty seconds after it was
/// last confirmed, and no sooner; a question is given up two seconds after it
/// was asked. A question whether a node has moved, unanswered by then, means
/// that it has.
pub proof fn law_memory_lasts_thirty_seconds(b: BridgeView, node: u8, now: u64)
    ensures
        ({
            let n = b.expired(now);
            let late = b.pending.contains_key(node) && now - b.pending[node].asked >= 2000;
            let moved = late && b.pending[node].moved_to is Some;
            &&& b.nodes.contains_key(node) && now - b.nodes[node].confirmed < 30000 && !moved
                ==> n.nodes.contains_key(node) && n.nodes[node] == b.nodes[node]
            &&& (!b.nodes.contains_key(node) || now - b.nodes[node].confirmed >= 30000) && !moved
                ==> !n.nodes.contains_key(node)
            &&& moved ==> n.nodes.contains_key(node) && n.nodes[node] == (Entry {
                side: b.pending[node].moved_to->0,
                confirmed: now,
                doubted: false,
            })
            &&& late ==> !n.pending.contains_key(node)
            &&& b.pending.contains_key(node) && !late ==> n.pending.contains_key(node)
                && n.pending[node] == b.pending[node]
            &&& n.amt == b.amt && n.addr == b.addr && n.mac == b.mac
        }),
{
}

/// Law: what is owed on an ID is paid when the right side answers. A LocalTalk
/// node that claims an ID is denied it by an ACK once the Ethernet answers; an
/// Ethernet node that asked is answered, in the name of the LocalTalk node and
/// with our own MAC, once LocalTalk answers -- unless the table says or suspects
/// that the node is elsewhere.
pub proof fn law_debts_are_paid(b: BridgeView, node: u8, answered: Side)
    requires
        b.pending.contains_key(node),
        b.pending[node].moved_to is None,
    ensures
        ({
            let (n, acts) = b.settled(node, answered);
            match b.pending[node].owed {
                Owed::LocalAck => if answered is Ether {
                    acts.len() == 1 && control_for(acts[0], node, 0x82) && !n.pending.contains_key(
                        node,
                    )
                } else {
                    acts.len() == 0 && n == b
                },
                Owed::EtherResponse { to, to_mac } => if answered is Ether {
                    acts.len() == 0 && n == b
                } else if b.nodes.contains_key(node) && (b.nodes[node].doubted
                    || b.nodes[node].side is Ether) {
                    acts.len() == 0 && !n.pending.contains_key(node)
                } else {
                    acts.len() == 1 && asks_or_answers(
                        acts[0],
                        b,
                        to_mac,
                        Aarp {
                            op: 2,
                            src_hw: b.mac,
                            src: Addr { net: b.addr.net, node },
                            dst_hw: to_mac,
                            dst: to,
                        },
                    ) && !n.pending.contains_key(node)
                },
                Owed::Nothing => acts.len() == 0 && n == b,
            }
        }),
{
    if let Owed::EtherResponse { to, to_mac } = b.pending[node].owed {
        lemma_aarp(
            node::response_of(Addr { net: b.addr.net, node }, b.mac, to, to_mac),
        );
    }
}

// -------------------------------------------------------------- onto the Ethernet

/// The one datagram a LocalTalk frame carries, and how it is to travel on.
pub open spec fn lifted(b: BridgeView, l: LlapView) -> Option<DdpView> {
    if l.typ == 1 {
        DdpView::from_short(l.data, b.addr.net, l.dst, l.src)
    } else if l.typ == 2 {
        DdpView::parse(l.data)
    } else {
        None
    }
}

/// Where on the Ethernet a datagram off LocalTalk belongs: to everybody where it
/// is for everybody; to the MAC that was noted for an address on another
/// network; to the MAC of a node known to be on the Ethernet; and to everybody
/// where no MAC is known.
pub open spec fn belongs_at(b: BridgeView, l: LlapView, d: DdpView, mac: MacAddr) -> bool {
    let all = l.dst == 255 || d.dst.node == 255;
    &&& all ==> mac == everybody()
    &&& !all && !here(b, d.dst) && b.amt.contains_key(d.dst) ==> mac == b.amt[d.dst]
    &&& !all && !here(b, d.dst) && !b.amt.contains_key(d.dst) ==> mac == everybody()
    &&& !all && here(b, d.dst) ==> {
        &&& forall|m: MacAddr| #[trigger] on_ether(b, d.dst.node, m) ==> mac == m
        &&& (forall|m: MacAddr| !#[trigger] on_ether(b, d.dst.node, m)) ==> mac == everybody()
    }
}

/// The frame that carries a datagram off LocalTalk on.
pub open spec fn goes_out(act: ActionView, b: BridgeView, l: LlapView, d: DdpView) -> bool {
    &&& act matches ActionView::ToEther(f)
    &&& f.snap && f.proto == 0x809b && f.src == b.mac
    &&& belongs_at(b, l, d, f.dst)
    &&& l.typ == 2 ==> f.payload == l.data
    &&& l.typ == 1 ==> (DdpView::parse(f.payload) matches Some(e) && e.src == (Addr {
        net: b.addr.net,
        node: l.src,
    }) && e.dst == (Addr { net: b.addr.net, node: l.dst }) && e.data == l.data.skip(5)
        && e.dst_socket == l.data[2] && e.src_socket == l.data[3] && e.typ == l.data[4])
}

/// Law: a datagram off LocalTalk, of a node that is not believed to be on the
/// Ethernet, goes out in exactly one frame, from our MAC to where it belongs;
/// the extended form goes as it came, and the short one reads as the same
/// datagram on our network. The sender is known to be on LocalTalk.
pub proof fn law_localtalk_reaches_the_ethernet(b: BridgeView, l: LlapView, now: u64)
    requires
        lifted(b, l) is Some,
        !out_of_place(b, l.src, false),
        l.data.len() <= 600,
    ensures
        ({
            let d = lifted(b, l)->0;
            let (n, acts) = b.from_local(l, now);
            exists|i: int|
                0 <= i < acts.len() && goes_out(#[trigger] acts[i], b, l, d) && forall|j: int|
                    0 <= j < acts.len() && j != i ==> !carries_data(#[trigger] acts[j])
        }),
{
    let d = lifted(b, l)->0;
    let (n, acts) = b.from_local(l, now);
    let (c, first) = b.confirmed(l.src, Side::Local, now);
    assert(!b.contradicts(l.src, Side::Local));
    assert(acts.len() == first.len() + 1);
    let i = first.len() as int;
    let f = acts[i]->ToEther_0;
    if l.typ == 1 {
        assert(d.valid());
        wire::ddp::law_round_trip(d);
    }
    assert(belongs_at(b, l, d, f.dst)) by {
        if !(l.dst == 255 || d.dst.node == 255) && here(b, d.dst) {
            assert(c.nodes.contains_key(d.dst.node) && d.dst.node != l.src ==> c.nodes[d.dst.node]
                == b.nodes[d.dst.node]);
            if b.nodes.contains_key(d.dst.node) && !b.nodes[d.dst.node].doubted {
                if let Side::Ether(m) = b.nodes[d.dst.node].side {
                    assert(on_ether(b, d.dst.node, m));
                }
            }
        }
    }
    assert(goes_out(acts[i], b, l, d));
    assert forall|j: int| 0 <= j < acts.len() && j != i implies !carries_data(
        #[trigger] acts[j],
    ) by {
        assert(acts[j] == first[j]);
    }
}

/// Law: unless somebody's address was noted at our own MAC, no datagram is ever
/// sent to our own MAC.
pub proof fn law_nothing_is_sent_to_ourselves(b: BridgeView, l: LlapView, d: DdpView, mac: MacAddr)
    requires
        belongs_at(b, l, d, mac),
        b.mac != everybody(),
        forall|a: Addr| #[trigger] b.amt.contains_key(a) ==> b.amt[a] != b.mac,
        forall|k: u8| !#[trigger] on_ether(b, k, b.mac),
    ensures
        mac != b.mac,
{
    if !(l.dst == 255 || d.dst.node == 255) && here(b, d.dst) {
        if exists|m: MacAddr| #[trigger] on_ether(b, d.dst.node, m) {
            let m = choose|m: MacAddr| #[trigger] on_ether(b, d.dst.node, m);
            assert(mac == m);
            assert(!on_ether(b, d.dst.node, b.mac));
        }
    }
}

// ----------------------------------------------------------------- onto LocalTalk

/// A datagram off the Ethernet that belongs on LocalTalk too: one for
/// everybody; and one for a node of this network that is not us, not known to be
/// on the Ethernet, and not in doubt.
pub open spec fn belongs_on_localtalk(b: BridgeView, d: DdpView) -> bool {
    d.dst.node == 255 || (here(b, d.dst) && d.dst.node != b.addr.node && !(b.nodes.contains_key(
        d.dst.node,
    ) && (b.nodes[d.dst.node].doubted || b.nodes[d.dst.node].side is Ether)))
}

/// The frame that carries a datagram off the Ethernet across.
pub open spec fn crosses(act: ActionView, b: BridgeView, d: DdpView, payload: Seq<u8>) -> bool {
    &&& act matches ActionView::ToLocal(l)
    &&& l.dst == d.dst.node && l.typ == 2 && l.data == payload
    &&& here(b, d.src) ==> l.src == d.src.node
    &&& !here(b, d.src) ==> l.src == b.addr.node
}

/// Law: a datagram off the Ethernet crosses exactly where it belongs on
/// LocalTalk, once, whole, to the node it is for; its sender on this network is
/// known to be on the Ethernet, and one on another network by the MAC it was
/// heard from.
pub proof fn law_the_ethernet_reaches_localtalk(b: BridgeView, p: PacketView, d: DdpView, now: u64)
    requires
        p.body matches BodyView::Ddp(e, _) && e == d,
        p.frame.src != b.mac,
        p.frame.snap,
        here(b, d.src) ==> !out_of_place(b, d.src.node, true),
        here(b, d.src) ==> d.dst.node != d.src.node,
    ensures
        ({
            let (n, acts) = b.from_ether(p, now);
            &&& belongs_on_localtalk(b, d) ==> exists|i: int|
                0 <= i < acts.len() && crosses(#[trigger] acts[i], b, d, p.frame.payload)
                    && forall|j: int|
                    0 <= j < acts.len() && j != i ==> !carries_data(#[trigger] acts[j])
            &&& !belongs_on_localtalk(b, d) ==> forall|j: int|
                0 <= j < acts.len() ==> !carries_data(#[trigger] acts[j])
            &&& !here(b, d.src) ==> n.amt == b.amt.insert(d.src, p.frame.src)
            &&& here(b, d.src) && d.src.node != 0 && d.src.node != 255 && d.src.node != b.addr.node
                && !(b.nodes.contains_key(d.src.node) && b.nodes[d.src.node].doubted)
                && !b.pending.contains_key(d.src.node) ==> on_ether(
                n,
                d.src.node,
                p.frame.src,
            )
        }),
{
    let side = Side::Ether(p.frame.src);
    let (n, acts) = b.from_ether(p, now);
    let (c, first) = if here(b, d.src) {
        b.confirmed(d.src.node, side, now)
    } else {
        (b.with_mac(d.src, p.frame.src), Seq::empty())
    };
    let (m, then) = c.repeated(d, p.frame.payload, now);
    assert(here(b, d.src) ==> !b.contradicts(d.src.node, side));
    assert(acts =~= first + then);
    assert(n == m);
    assert(here(b, d.src) ==> first.len() <= 1);
    assert(c.nodes.contains_key(d.dst.node) == b.nodes.contains_key(d.dst.node) || !here(b, d.src)
        || d.src.node == d.dst.node);
    assert(belongs_on_localtalk(c, d) == belongs_on_localtalk(b, d));
    assert forall|j: int| 0 <= j < first.len() implies !carries_data(#[trigger] first[j]) by {}
    if belongs_on_localtalk(b, d) {
        let i = first.len() as int;
        assert(acts[i] == then[0]);
        assert(crosses(acts[i], b, d, p.frame.payload));
        assert forall|j: int| 0 <= j < acts.len() && j != i implies !carries_data(
            #[trigger] acts[j],
        ) by {
            if j < i {
                assert(acts[j] == first[j]);
            } else {
                assert(acts[j] == then[j - i]);
            }
        }
    } else {
        assert(then.len() == 0);
        assert forall|j: int| 0 <= j < acts.len() implies !carries_data(#[trigger] acts[j]) by {
            assert(acts[j] == first[j]);
        }
    }
}

// ------------------------------------------------------------------- arbitration

/// Law: AARP off the Ethernet ends at the bridge. Whoever asks or probes for its
/// own address is answered. Whoever asks for a node known to be on LocalTalk is
/// answered in its name; whoever probes for it, or asks or probes for a node of
/// unknown place, has LocalTalk asked, and the answer owed. A node known to be on
/// the Ethernet answers for itself.
pub proof fn law_aarp_is_answered_for_localtalk(b: BridgeView, p: PacketView, a: Aarp, now: u64)
    requires
        p.body matches BodyView::Aarp(c) && c == a,
        p.frame.src != b.mac,
        p.frame.snap,
        a.op == 1 || a.op == 3,
    ensures
        ({
            let (n, acts) = b.from_ether(p, now);
            let node = a.dst.node;
            let there = a.dst.net == b.addr.net && node != 0 && node != 255 && a.dst != b.addr;
            let known = b.nodes.contains_key(node) && !b.nodes[node].doubted;
            let answer = |src: Addr|
                Aarp { op: 2, src_hw: b.mac, src, dst_hw: a.src_hw, dst: a.src };
            &&& a.dst == b.addr ==> acts.len() == 1 && asks_or_answers(
                acts[0],
                b,
                a.src_hw,
                answer(b.addr),
            )
            &&& there && on_localtalk(b, node) && a.op == 1 ==> acts.len() == 1 && asks_or_answers(
                acts[0],
                b,
                a.src_hw,
                answer(a.dst),
            ) && n == b
            &&& there && (!known || (on_localtalk(b, node) && a.op == 3))
                && !b.pending.contains_key(node) ==> acts.len() == 1 && control_for(
                acts[0],
                node,
                0x81,
            ) && n.pending.contains_key(node) && n.pending[node].owed == (Owed::EtherResponse {
                to: a.src,
                to_mac: a.src_hw,
            }) && n.pending[node].moved_to is None
            &&& there && known && b.nodes[node].side is Ether ==> acts.len() == 0 && n == b
            &&& !there && a.dst != b.addr ==> acts.len() == 0 && n == b
        }),
{
    lemma_aarp(node::response_of(b.addr, b.mac, a.src, a.src_hw));
    lemma_aarp(node::response_of(a.dst, b.mac, a.src, a.src_hw));
}

/// Law: an AARP Response is its sender's: on this network it is heard on the
/// Ethernet, and pays what was owed on it; on another network its MAC is noted,
/// and nothing else.
pub proof fn law_aarp_responses_are_believed(b: BridgeView, p: PacketView, a: Aarp, now: u64)
    requires
        p.body matches BodyView::Aarp(c) && c == a,
        p.frame.src != b.mac,
        p.frame.snap,
        a.op == 2,
    ensures
        ({
            let (n, acts) = b.from_ether(p, now);
            let (c, first) = b.confirmed(a.src.node, Side::Ether(a.src_hw), now);
            let (e, then) = c.settled(a.src.node, Side::Ether(a.src_hw));
            &&& a.src.net == b.addr.net ==> n == e && acts == first + then
            &&& a.src.net != b.addr.net ==> n.amt == b.amt.insert(a.src, a.src_hw) && n.nodes
                == b.nodes && n.pending == b.pending && acts.len() == 0
        }),
{
}

/// Law: a LocalTalk node that asks for an ID is denied ours at once; any other
/// is asked of the Ethernet by a Probe, and the denial owed. An ACK is its
/// sender's: it is heard on LocalTalk, and pays what was owed on it. Other
/// control frames do nothing.
pub proof fn law_localtalk_arbitration_ends_here(b: BridgeView, l: LlapView, now: u64)
    requires
        l.typ >= 0x80,
    ensures
        ({
            let (n, acts) = b.from_local(l, now);
            let (c, first) = b.confirmed(l.src, Side::Local, now);
            let (e, then) = c.settled(l.src, Side::Local);
            &&& l.typ == 0x81 && l.dst == b.addr.node ==> n == b && acts.len() == 1 && control_for(
                acts[0],
                b.addr.node,
                0x82,
            )
            &&& l.typ == 0x81 && l.dst != b.addr.node && l.dst != 0 && l.dst != 255
                && !b.pending.contains_key(l.dst) ==> acts.len() == 1 && asks_ethernet(
                acts[0],
                b,
                l.dst,
                true,
            ) && n.pending.contains_key(l.dst) && n.pending[l.dst].owed == Owed::LocalAck
                && n.pending[l.dst].moved_to is None
            &&& l.typ == 0x82 ==> n == e && acts == first + then
            &&& l.typ != 0x81 && l.typ != 0x82 ==> n == b && acts.len() == 0
        }),
{
    let target = Addr { net: b.addr.net, node: l.dst };
    lemma_aarp(node::probe_of(target, b.mac));
}

/// Law: at every event what is overdue is settled first, so that no late answer
/// is believed: the move of each node whose move-check nobody answered is
/// reported, and then the packet or frame is taken by the bridge as that leaves
/// it. Any other event does no more.
pub proof fn law_what_is_overdue_is_settled_first(b: BridgeView, e: Event, now: u64, node: u8)
    ensures
        ({
            let (n, acts) = b.stepped(e, now);
            let k = b.moves(256, now).len() as int;
            &&& k <= acts.len()
            &&& forall|i: int| 0 <= i < k ==> (#[trigger] acts[i]) is Report
            &&& b.pending.contains_key(node) && now - b.pending[node].asked >= 2000
                && b.pending[node].moved_to is Some ==> exists|i: int|
                0 <= i < k && #[trigger] acts[i] == ActionView::Report(
                    "node "@ + fmt::dec(node as nat) + " moved to "@
                        + b.pending[node].moved_to->0.text(),
                )
            &&& e matches Event::Packet { packet, .. } ==> (n, acts.skip(k)) == b.expired(
                now,
            ).from_ether(packet.deep_view(), now)
            &&& e matches Event::Llap { llap, .. } ==> (n, acts.skip(k)) == b.expired(now).from_local(
                llap.deep_view(),
                now,
            )
            &&& !(e is Packet) && !(e is Llap) ==> n == b.expired(now) && acts.len() == k
        }),
{
    let (n, acts) = b.stepped(e, now);
    let late = b.moves(256, now);
    lemma_moves(b, 256, now);
    if let Event::Packet { packet, .. } = e {
        let then = b.expired(now).from_ether(packet.deep_view(), now).1;
        assert(acts.skip(late.len() as int) =~= then);
    }
    if let Event::Llap { llap, .. } = e {
        let then = b.expired(now).from_local(llap.deep_view(), now).1;
        assert(acts.skip(late.len() as int) =~= then);
    }
    assert forall|i: int| 0 <= i < late.len() implies (#[trigger] acts[i]) is Report by {
        assert(acts[i] == late[i]);
    }
    if b.pending.contains_key(node) && now - b.pending[node].asked >= 2000
        && b.pending[node].moved_to is Some {
        lemma_move_reported(b, 256, now, node);
        let r = ActionView::Report(
            "node "@ + fmt::dec(node as nat) + " moved to "@ + b.pending[node].moved_to->0.text(),
        );
        let i = choose|i: int| 0 <= i < late.len() && late[i] == r;
        assert(acts[i] == r);
    }
}

proof fn lemma_moves(b: BridgeView, n: nat, now: u64)
    ensures
        forall|i: int| 0 <= i < b.moves(n, now).len() ==> (#[trigger] b.moves(n, now)[i]) is Report,
    decreases n,
{
    if n > 0 {
        lemma_moves(b, (n - 1) as nat, now);
    }
}

proof fn lemma_move_reported(b: BridgeView, n: nat, now: u64, node: u8)
    requires
        n <= 256,
        node < n,
        b.has_moved(node, now),
    ensures
        b.moves(n, now).contains(
            ActionView::Report(
                "node "@ + fmt::dec(node as nat) + " moved to "@
                    + b.pending[node].moved_to->0.text(),
            ),
        ),
    decreases n,
{
    let r = ActionView::Report(
        "node "@ + fmt::dec(node as nat) + " moved to "@ + b.pending[node].moved_to->0.text(),
    );
    let s = b.moves((n - 1) as nat, now);
    let t = b.moves(n, now);
    if node < n - 1 {
        lemma_move_reported(b, (n - 1) as nat, now, node);
        let i = choose|i: int| 0 <= i < s.len() && s[i] == r;
        assert(t[i] == r);
    } else {
        assert(t[s.len() as int] == r);
    }
}

/// Law: whom our node has heard of on its own network the bridge starts out
/// believing on the Ethernet, at the address heard, and nobody else; our own ID is
/// not among them.
pub proof fn law_who_was_heard_starts_on_the_ethernet(
    addr: Addr,
    amt: Map<Addr, MacAddr>,
    now: u64,
    n: u8,
)
    ensures
        ({
            let known = residents(addr, amt, now);
            let a = Addr { net: addr.net, node: n };
            &&& known.contains_key(n) == (n != addr.node && amt.contains_key(a))
            &&& known.contains_key(n) ==> known[n] == (Entry {
                side: Side::Ether(amt[a]),
                confirmed: now,
                doubted: false,
            })
        }),
{
}

} // verus!
