//! What a port is for: the address it asks for and defends, what it hands up
//! and how it frames what goes out, said of the frames as they read.

use vstd::prelude::*;

use crate::addr::MacAddr;
use crate::node;
use crate::node_laws::{everybody, objects};
use crate::router::ports::{InboundView, Kind, PortView};
use crate::router::{ActionView, DestView};
use crate::wire;
use crate::wire::ddp::DdpView;
use crate::wire::frame::{BodyView, PacketView};
use crate::wire::llap::LlapView;
use crate::wire::{Aarp, Addr};

verus! {

/// Law: a port asks for its candidate on the first network of its range: on
/// Ethernet by an AARP Probe to everybody, on LocalTalk by an ENQ ($81) that
/// carries the ID in both node bytes.
pub proof fn law_a_port_asks_for_its_address(p: PortView)
    ensures
        ({
            let node = p.claim.node;
            let ours = Addr { net: p.range.0, node };
            match p.kind {
                Kind::Ether { mac } => p.asking() matches ActionView::ToEther { port, frame } && port
                    == p.id && frame.snap && frame.proto == 0x80f3 && frame.src == mac && frame.dst
                    == everybody() && Aarp::spec_parse(frame.payload) == Some(
                    Aarp {
                        op: 3,
                        src_hw: mac,
                        src: ours,
                        dst_hw: MacAddr(0, 0, 0, 0, 0, 0),
                        dst: ours,
                    },
                ),
                _ => p.asking() matches ActionView::ToLlap { port, llap } && port == p.id && llap.dst
                    == node && llap.src == node && llap.typ == 0x81 && llap.data.len() == 0,
            }
        }),
{
    if let Kind::Ether { mac } = p.kind {
        let a = node::probe_of(Addr { net: p.range.0, node: p.claim.node }, mac);
        wire::aarp::law_round_trip(a, Seq::empty());
        assert(a.bytes() + Seq::<u8>::empty() =~= a.bytes());
    }
}

/// Law: a port without an address asks ten times a fifth of a second apart on
/// Ethernet, and eight times a quarter of a second apart on LocalTalk; an
/// interval after the last the address is its own, and a TashTalk board is told
/// so. A port that holds one does nothing.
pub proof fn law_a_port_claims_by_asking(p: PortView, now: u64)
    requires
        now < u64::MAX - 1000,
    ensures
        ({
            let (n, acts) = p.ticked(now);
            let tries: int = if p.kind is Ether {
                10
            } else {
                8
            };
            let gap: int = if p.kind is Ether {
                200
            } else {
                250
            };
            &&& p.node is Some || now < p.claim.next ==> n == p && acts.len() == 0
            &&& p.node is None && now >= p.claim.next && p.claim.tries < tries ==> acts == seq![
                p.asking(),
            ] && n.node is None && n.claim.node == p.claim.node && n.claim.tries == p.claim.tries
                + 1 && n.claim.next == now + gap
            &&& p.node is None && now >= p.claim.next && p.claim.tries >= tries ==> n.node == Some(
                p.claim.node,
            ) && acts.len() == (if p.kind == Kind::Tashtalk {
                2int
            } else {
                1
            }) && acts[0] is Log && (p.kind == Kind::Tashtalk ==> acts[1] == ActionView::SetNode {
                port: p.id,
                node: Some(p.claim.node),
            })
        }),
{
}

/// Law: an address a port gives way from is followed by another one: from 1 to
/// 253 on Ethernet, from 128 to 254 on LocalTalk, and the round begins again.
pub proof fn law_a_port_that_gives_way_asks_for_another(p: PortView, now: u64)
    ensures
        ({
            let n = p.restarted(now);
            &&& n.claim.node != p.claim.node && n.claim.tries == 0 && n.claim.next == now
            &&& p.kind is Ether ==> 1 <= n.claim.node <= 253
            &&& !(p.kind is Ether) ==> 128 <= n.claim.node <= 254
            &&& n.node == p.node
        }),
{
}

/// Law: on Ethernet a datagram of another node is handed up as it is, and one
/// of our own is not; its sender is noted either way.
pub proof fn law_datagrams_are_handed_up(p: PortView, mac: MacAddr, k: PacketView, now: u64)
    requires
        p.kind == (Kind::Ether { mac }),
    ensures
        ({
            let t = p.ether(k, now);
            &&& k.body matches BodyView::Ddp(d, _) ==> {
                &&& k.frame.src != mac ==> t.what == InboundView::Ddp(d)
                &&& k.frame.src == mac ==> t.what == InboundView::Ignore
                &&& t.acts.len() == 0 && t.port == (PortView {
                    amt: p.amt.insert(d.src, k.frame.src),
                    ..p
                })
            }
            &&& k.body is Unknown ==> t.what == InboundView::Ignore && t.port == p && t.acts.len() == 0
        }),
{
}

/// Law: on Ethernet an objection to a candidate makes the port give way; once
/// it holds the address it answers whoever asks for it or probes for it, with
/// its own MAC.
pub proof fn law_a_port_defends_its_address(p: PortView, mac: MacAddr, k: PacketView, now: u64)
    requires
        p.kind == (Kind::Ether { mac }),
        k.body is Aarp,
    ensures
        ({
            let a = k.body->Aarp_0;
            let t = p.ether(k, now);
            let tentative = Addr { net: p.range.0, node: p.claim.node };
            &&& t.what == InboundView::Handled
            &&& p.node is None && objects(k.body, tentative, mac) ==> t.port.claim.node
                != p.claim.node && t.port.node is None && t.acts.len() == 0
            &&& p.node is None && !objects(k.body, tentative, mac) ==> t.port.claim == p.claim
                && t.acts.len() == 0
            &&& p.node matches Some(n) ==> {
                let ours = Addr { net: p.range.0, node: n };
                let asked = (a.op == 1 && a.dst == ours) || (a.op == 3 && a.src == ours && a.src_hw
                    != mac);
                &&& t.port.node == p.node
                &&& asked ==> t.acts.len() == 1 && (t.acts[0] matches ActionView::ToEther {
                    port,
                    frame,
                } && port == p.id && frame.snap && frame.proto == 0x80f3 && frame.src == mac
                    && frame.dst == a.src_hw && Aarp::spec_parse(frame.payload) == Some(
                    Aarp { op: 2, src_hw: mac, src: ours, dst_hw: a.src_hw, dst: a.src },
                ))
                &&& !asked && !(a.op == 2 && a.src == ours) ==> t.acts.len() == 0
                &&& a.op == 2 && a.src == ours ==> t.acts.len() == 1 && t.acts[0] is Log
            }
        }),
{
    let a = k.body->Aarp_0;
    if let Some(n) = p.node {
        let r = node::response_of(Addr { net: p.range.0, node: n }, mac, a.src, a.src_hw);
        wire::aarp::law_round_trip(r, Seq::empty());
        assert(r.bytes() + Seq::<u8>::empty() =~= r.bytes());
    } else {
        law_a_port_that_gives_way_asks_for_another(
            PortView { amt: node::gleaned(p.amt, k), ..p },
            now,
        );
    }
}

/// Law: on LocalTalk an ENQ ($81) or ACK ($82) for the candidate makes the port
/// give way. Once it holds an ID, an ENQ for it is answered with an ACK that
/// carries the ID twice -- by the firmware, on TashTalk -- and an ENQ for another
/// ID is not. A short datagram ($01) is lifted onto the port's network and a
/// long one ($02) handed up as it is; our own frames, and what cannot be read,
/// are ignored.
pub proof fn law_localtalk_is_heard(p: PortView, l: LlapView, now: u64)
    ensures
        ({
            let t = p.llap(l, now);
            &&& p.node is None && (l.typ == 0x81 || l.typ == 0x82) && l.dst == p.claim.node
                ==> t.what == InboundView::Handled && t.acts.len() == 0 && t.port.claim.node
                != p.claim.node
            &&& p.node is None && l.typ == 0x81 && l.dst != p.claim.node ==> t.port == p
                && t.acts.len() == 0
            &&& p.node matches Some(n) ==> {
                &&& t.port == p
                &&& l.typ == 0x81 && l.dst == n && p.kind != Kind::Tashtalk ==> t.acts == seq![
                    ActionView::ToLlap {
                        port: p.id,
                        llap: LlapView { dst: n, src: n, typ: 0x82, data: Seq::empty() },
                    },
                ]
                &&& l.typ != 0x81 || l.dst != n || p.kind == Kind::Tashtalk ==> t.acts.len() == 0
                &&& l.typ != 0x81 && l.src == n ==> t.what == InboundView::Ignore
            }
            &&& l.typ == 1 && p.node != Some(l.src) ==> {
                &&& l.data.len() >= 5 ==> (t.what matches InboundView::Ddp(d) && d.src == Addr {
                    net: p.range.0,
                    node: l.src,
                } && d.dst == Addr { net: p.range.0, node: l.dst } && d.dst_socket == l.data[2]
                    && d.src_socket == l.data[3] && d.typ == l.data[4] && d.data == l.data.skip(5))
                &&& l.data.len() < 5 ==> t.what == InboundView::Ignore
            }
            &&& l.typ == 2 && p.node != Some(l.src) ==> {
                &&& DdpView::parse(l.data) matches Some(d) ==> t.what == InboundView::Ddp(d)
                &&& DdpView::parse(l.data) is None ==> t.what == InboundView::Ignore
            }
        }),
{
    if p.node is None {
        law_a_port_that_gives_way_asks_for_another(p, now);
    }
}

/// Law: on Ethernet a datagram goes out whole, from the port's MAC: to the MAC a
/// node was heard from, or to everybody where it was not heard; to everybody
/// where it is for everybody; and to a zone at the zone's own multicast address.
pub proof fn law_ethernet_is_framed(p: PortView, mac: MacAddr, dest: DestView, d: DdpView)
    requires
        p.kind == (Kind::Ether { mac }),
        p.node is Some,
        d.valid(),
    ensures
        ({
            let to = Addr { net: d.dst.net, node: dest->Node_0 };
            &&& p.framed(dest, d) matches Some(ActionView::ToEther { port, frame })
            &&& port == p.id && frame.snap && frame.proto == 0x809b && frame.src == mac
            &&& DdpView::parse(frame.payload) == Some(d)
            &&& dest is Node && p.amt.contains_key(to) ==> frame.dst == p.amt[to]
            &&& dest is Node && !p.amt.contains_key(to) ==> frame.dst == everybody()
            &&& dest is Broadcast ==> frame.dst == everybody()
            &&& dest matches DestView::Zone(z) ==> frame.dst.0 == 0x09 && frame.dst.1 == 0
                && frame.dst.2 == 0x07 && frame.dst.3 == 0 && frame.dst.4 == 0 && frame.dst.5 < 253
        }),
{
    wire::ddp::law_round_trip(d);
}

/// Law: on LocalTalk a datagram goes out from the port's node, to a node's ID or
/// to 255 where it is for more than one; with the short header exactly where
/// both ends are on the port's network, or the destination on no network by
/// number.
pub proof fn law_localtalk_is_framed(p: PortView, dest: DestView, d: DdpView)
    requires
        !(p.kind is Ether),
        p.node is Some,
        d.valid(),
    ensures
        ({
            let here = d.src.net == p.range.0 && (d.dst.net == p.range.0 || d.dst.net == 0);
            &&& p.framed(dest, d) matches Some(ActionView::ToLlap { port, llap })
            &&& port == p.id && Some(llap.src) == p.node
            &&& dest matches DestView::Node(n) ==> llap.dst == n
            &&& !(dest is Node) ==> llap.dst == 255
            &&& here ==> llap.typ == 1 && (DdpView::from_short(
                llap.data,
                p.range.0,
                d.dst.node,
                d.src.node,
            ) matches Some(e) && e.data == d.data && e.dst_socket == d.dst_socket && e.src_socket
                == d.src_socket && e.typ == d.typ)
            &&& !here ==> llap.typ == 2 && DdpView::parse(llap.data) == Some(d)
        }),
{
    wire::ddp::law_round_trip(d);
    let e = DdpView {
        src: Addr { net: p.range.0, node: d.src.node },
        dst: Addr { net: p.range.0, node: d.dst.node },
        ..d
    };
    wire::ddp::law_short_header_lifts(e);
    assert(e.short_bytes() =~= d.short_bytes());
}

} // verus!
