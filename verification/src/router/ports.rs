//! A router port: one physical link, its network range, its zones, and the
//! address mapping the link needs.
//!
//! A port owns its own address: it claims one at start-up, defends it for the
//! life of the process, and refuses to carry anything until it holds one.
//! Everything else here is framing -- the same datagram looks different on
//! Ethernet, on LToUDP and on a TashTalk UART, and the router upstream should
//! not have to know which.

use std::collections::hash_map::DefaultHasher;
use std::hash::Hasher;

use vstd::prelude::*;
use vstd::std_specs::hash::DefaultHasherAdditionalSpecFns;
use vstd::string::*;

use crate::addr::MacAddr;
use crate::amt::Amt;
use crate::fmt;
use crate::names;
use crate::node;
use crate::node::{aarp_action, aarp_response, broadcast_mac, glean, mac_for, probe, AarpAction};
use crate::router::{Action, ActionView, Dest, DestView, PortId};
use crate::wire::ddp::DdpView;
use crate::wire::frame::{BodyView, PacketView};
use crate::wire::llap::LlapView;
use crate::wire::zip;
use crate::wire::{zone_multicast, Addr, Body, Ddp, Encode, Llap, Packet, AARP, DDP, LLAP_ACK, LLAP_ENQ, LLAP_LONG_DDP, LLAP_SHORT_DDP};

verus! {

/// AARP probes, and the gap between them in milliseconds.
pub const PROBE_TRIES: u32 = 10;

pub const PROBE_INTERVAL: u64 = 200;

/// lapENQs, and the gap between them.
pub const ENQ_TRIES: u32 = 8;

pub const ENQ_INTERVAL: u64 = 250;

/// What sort of link this is -- which decides the framing, the node-ID range
/// and who answers an ENQ.
#[derive(Debug, Clone, Copy, PartialEq, Eq, Structural)]
pub enum Kind {
    Ether { mac: MacAddr },
    Ltoudp,
    Tashtalk,
}

/// The claim in progress. Once `Port::node` is `Some` this is history.
#[derive(Debug, Clone, Copy)]
pub struct Claim {
    pub node: u8,
    /// Probes or ENQs sent so far in this round.
    pub tries: u32,
    /// When the next one is due.
    pub next: u64,
    /// Which candidate this is, so a restart seeds differently.
    pub attempt: u32,
}

pub struct Port {
    pub id: PortId,
    /// "eth0", "ltoudp", "/dev/ttyAMA0" -- whatever the config called it.
    pub name: String,
    pub kind: Kind,
    pub range: (u16, u16),
    /// `zones[0]` is the port's default zone.
    pub zones: Vec<String>,
    /// The claimed node ID; `None` while claiming.
    pub node: Option<u8>,
    /// Address-to-MAC mappings gleaned from the cable. Ethernet only --
    /// LocalTalk's node ID *is* its hardware address.
    pub amt: Amt,
    pub claim: Claim,
}

/// A port, as data.
pub struct PortView {
    pub id: PortId,
    pub name: Seq<char>,
    pub kind: Kind,
    pub range: (u16, u16),
    pub zones: Seq<Seq<char>>,
    pub node: Option<u8>,
    pub amt: Map<Addr, MacAddr>,
    pub claim: Claim,
}

impl DeepView for Port {
    type V = PortView;

    open spec fn deep_view(&self) -> PortView {
        PortView {
            id: self.id,
            name: self.name@,
            kind: self.kind,
            range: self.range,
            zones: self.zones.deep_view(),
            node: self.node,
            amt: self.amt@,
            claim: self.claim,
        }
    }
}

/// What a port made of an incoming frame.
#[derive(Debug, PartialEq, Eq)]
pub enum Inbound {
    /// A datagram for the router to route or deliver, already lifted to the
    /// extended header.
    Ddp(Ddp),
    /// Consumed by the port (AARP, ENQ/ACK, claim traffic).
    Handled,
    Ignore,
}

pub enum InboundView {
    Ddp(DdpView),
    Handled,
    Ignore,
}

impl DeepView for Inbound {
    type V = InboundView;

    open spec fn deep_view(&self) -> InboundView {
        match self {
            Inbound::Ddp(d) => InboundView::Ddp(d.deep_view()),
            Inbound::Handled => InboundView::Handled,
            Inbound::Ignore => InboundView::Ignore,
        }
    }
}

/// A moment that much later, at most the last there is.
pub open spec fn later(now: u64, d: u64) -> u64 {
    if now + d > u64::MAX {
        u64::MAX
    } else {
        (now + d) as u64
    }
}

// ----------------------------------------------------------------- candidates

/// The node IDs a port may claim, as the lowest and how many: EtherTalk 1-253
/// (254 and 255 are reserved), LocalTalk 128-254, the server range.
pub open spec fn ids(kind: Kind) -> (u8, u64) {
    match kind {
        Kind::Ether { .. } => (1, 253),
        _ => (128, 127),
    }
}

pub open spec fn may_claim(kind: Kind, node: u8) -> bool {
    ids(kind).0 <= node < ids(kind).0 + ids(kind).1
}

pub open spec fn candidate_of(kind: Kind, seed: u64) -> u8 {
    (ids(kind).0 + seed % ids(kind).1) as u8
}

/// The next ID up, wrapping -- used only to guarantee a restart moves off the
/// address that was just refused.
pub open spec fn node_after(kind: Kind, node: u8) -> u8 {
    if may_claim(kind, node) && may_claim(kind, (node + 1) as u8) && node < 255 {
        (node + 1) as u8
    } else {
        ids(kind).0
    }
}

pub open spec fn be64(n: u64) -> Seq<u8> {
    node::be32((n / 0x1_0000_0000) as u32) + node::be32((n % 0x1_0000_0000) as u32)
}

/// The clock mixed with the port and its MAC. A collision costs one more probe
/// round, which is what the probes are for.
pub open spec fn seed_of(id: PortId, kind: Kind, now: u64, attempt: u32) -> u64 {
    let s = seq![be64(now), seq![id], node::be32(attempt)];
    DefaultHasher::spec_finish(
        match kind {
            Kind::Ether { mac } => s.push(mac.bytes()),
            _ => s,
        },
    )
}

fn id_range(kind: Kind) -> (r: (u8, u64))
    ensures
        r == ids(kind),
{
    match kind {
        Kind::Ether { .. } => (1, 253),
        _ => (128, 127),
    }
}

fn candidate(kind: Kind, seed: u64) -> (r: u8)
    ensures
        r == candidate_of(kind, seed),
        may_claim(kind, r),
{
    let (lo, span) = id_range(kind);
    lo + (seed % span) as u8
}

fn next_node(kind: Kind, node: u8) -> (r: u8)
    ensures
        r == node_after(kind, node),
        may_claim(kind, r),
        r != node,
{
    let (lo, span) = id_range(kind);
    let top: u8 = lo + (span - 1) as u8;
    if lo <= node && node < top {
        node + 1
    } else {
        lo
    }
}

fn seed(id: PortId, kind: Kind, now: u64, attempt: u32) -> (r: u64)
    ensures
        r == seed_of(id, kind, now, attempt),
{
    let ghost s = seq![be64(now), seq![id], node::be32(attempt)];
    let mut h = DefaultHasher::new();
    let mut b: Vec<u8> = Vec::new();
    node::push32(&mut b, (now / 0x1_0000_0000) as u32);
    node::push32(&mut b, (now % 0x1_0000_0000) as u32);
    assert(b@ =~= be64(now));
    h.write(b.as_slice());
    let one: [u8; 1] = [id];
    assert(one@ =~= seq![id]);
    h.write(&one);
    let mut b: Vec<u8> = Vec::new();
    node::push32(&mut b, attempt);
    assert(b@ =~= node::be32(attempt));
    h.write(b.as_slice());
    assert(h@ =~= s);
    if let Kind::Ether { mac } = kind {
        let m: [u8; 6] = [mac.0, mac.1, mac.2, mac.3, mac.4, mac.5];
        assert(m@ =~= mac.bytes());
        h.write(&m);
    }
    h.finish()
}

// ------------------------------------------------------------------- the port

/// What a port does on input: the port afterwards, what became of the frame,
/// and what to send.
pub struct Taken {
    pub port: PortView,
    pub what: InboundView,
    pub acts: Seq<ActionView>,
}

impl PortView {
    pub open spec fn extended(self) -> bool {
        self.kind is Ether
    }

    /// Our own address on this link, once we hold one. A port's own node
    /// always sits on the first network of its range.
    pub open spec fn addr(self) -> Option<Addr> {
        match self.node {
            Some(node) => Some(Addr { net: self.range.0, node }),
            None => None,
        }
    }

    /// The node ID we hold, or the one we are asking for.
    pub open spec fn claiming(self) -> u8 {
        match self.node {
            Some(n) => n,
            None => self.claim.node,
        }
    }

    pub open spec fn schedule(self) -> (u32, u64) {
        match self.kind {
            Kind::Ether { .. } => (PROBE_TRIES, PROBE_INTERVAL),
            _ => (ENQ_TRIES, ENQ_INTERVAL),
        }
    }

    /// The address is ours. TashTalk answers ENQ and RTS for every ID in its
    /// node bitmap, so the claim is the moment to put ours in it.
    pub open spec fn claimed(self) -> (PortView, Seq<ActionView>) {
        let node = self.claim.node;
        let log = ActionView::Log(
            "port "@ + self.name + ": claimed "@ + Addr { net: self.range.0, node }.text(),
        );
        (
            PortView { node: Some(node), ..self },
            if self.kind == Kind::Tashtalk {
                seq![log, ActionView::SetNode { port: self.id, node: Some(node) }]
            } else {
                seq![log]
            },
        )
    }

    /// The address is taken: another one, and the round over again.
    pub open spec fn restarted(self, now: u64) -> PortView {
        let attempt = vstd::wrapping::u32_specs::wrapping_add(self.claim.attempt, 1);
        let n = candidate_of(self.kind, seed_of(self.id, self.kind, now, attempt));
        PortView {
            claim: Claim {
                node: if n == self.claim.node {
                    node_after(self.kind, n)
                } else {
                    n
                },
                tries: 0,
                next: now,
                attempt,
            },
            ..self
        }
    }

    /// The probe or ENQ that asks for the candidate. ENQ and ACK both carry
    /// the ID under discussion in both node bytes.
    pub open spec fn asking(self) -> ActionView {
        let node = self.claim.node;
        match self.kind {
            Kind::Ether { mac } => ActionView::ToEther {
                port: self.id,
                frame: node::frame_of(
                    mac,
                    broadcast_mac(),
                    AARP,
                    node::probe_of(Addr { net: self.range.0, node }, mac).bytes(),
                ),
            },
            _ => ActionView::ToLlap {
                port: self.id,
                llap: LlapView { dst: node, src: node, typ: LLAP_ENQ, data: Seq::empty() },
            },
        }
    }

    /// The claim: a probe or ENQ per interval, then the address, once a whole
    /// interval has passed after the last one in silence. Nothing once the
    /// port is claimed.
    pub open spec fn ticked(self, now: u64) -> (PortView, Seq<ActionView>) {
        let (tries, interval) = self.schedule();
        if self.node is Some || now < self.claim.next {
            (self, Seq::empty())
        } else if self.claim.tries >= tries {
            self.claimed()
        } else {
            (
                PortView {
                    claim: Claim {
                        tries: (self.claim.tries + 1) as u32,
                        next: later(now, interval),
                        ..self.claim
                    },
                    ..self
                },
                seq![self.asking()],
            )
        }
    }

    /// AARP on the cable. While probing, both sides give way. Once
    /// claimed, a conflict means someone took the address from under us, and
    /// there is nothing to do but say so.
    pub open spec fn aarp(self, p: PacketView, mac: MacAddr, now: u64) -> Taken {
        let a = p.body->Aarp_0;
        let ours = Addr { net: self.range.0, node: self.claiming() };
        match node::action_on(p.body, ours, mac, self.node is None) {
            AarpAction::Conflict => if self.node is None {
                Taken {
                    port: self.restarted(now),
                    what: InboundView::Handled,
                    acts: Seq::empty(),
                }
            } else {
                Taken {
                    port: self,
                    what: InboundView::Handled,
                    acts: seq![
                        ActionView::Log(
                            "port "@ + self.name + ": "@ + ours.text() + " claimed by "@
                                + a.src_hw.text(),
                        ),
                    ],
                }
            },
            AarpAction::AnswerTo(to) => Taken {
                port: self,
                what: InboundView::Handled,
                acts: seq![
                    ActionView::ToEther {
                        port: self.id,
                        frame: node::frame_of(
                            mac,
                            to,
                            AARP,
                            node::response_of(ours, mac, a.src, to).bytes(),
                        ),
                    },
                ],
            },
            AarpAction::Ignore => Taken {
                port: self,
                what: InboundView::Handled,
                acts: Seq::empty(),
            },
        }
    }

    /// Ethernet input: glean, defend, and pass datagrams up.
    pub open spec fn ether(self, p: PacketView, now: u64) -> Taken {
        match self.kind {
            Kind::Ether { mac } => {
                let s = PortView { amt: node::gleaned(self.amt, p), ..self };
                match p.body {
                    BodyView::Aarp(_) => s.aarp(p, mac, now),
                    // Our own frame heard back off the cable is ignored.
                    BodyView::Ddp(d, _) => Taken {
                        port: s,
                        what: if p.frame.src == mac {
                            InboundView::Ignore
                        } else {
                            InboundView::Ddp(d)
                        },
                        acts: Seq::empty(),
                    },
                    BodyView::Unknown => Taken {
                        port: s,
                        what: InboundView::Ignore,
                        acts: Seq::empty(),
                    },
                }
            },
            _ => Taken { port: self, what: InboundView::Ignore, acts: Seq::empty() },
        }
    }

    pub open spec fn took(self, what: InboundView) -> Taken {
        Taken { port: self, what, acts: Seq::empty() }
    }

    /// A datagram lifted off the link, or nothing that can be read.
    pub open spec fn lifted(self, d: Option<DdpView>) -> Taken {
        self.took(
            match d {
                Some(d) => InboundView::Ddp(d),
                None => InboundView::Ignore,
            },
        )
    }

    /// LocalTalk input: answer ENQs for our own ID, watch for a conflict while
    /// claiming, and lift short headers onto this port's network.
    pub open spec fn llap(self, l: LlapView, now: u64) -> Taken {
        let ours = self.claiming();
        if self.node is None && (l.typ == LLAP_ENQ || l.typ == LLAP_ACK) && l.dst == ours {
            // Someone else holds, or is also claiming, the ID we ask for.
            self.restarted(now).took(InboundView::Handled)
        } else if l.typ == LLAP_ENQ {
            // TashTalk's firmware answers every ID in its node bitmap; a
            // second ACK from us would be a duplicate on the wire. Another
            // node's ID is not ours to deny.
            if self.node == Some(l.dst) && self.kind != Kind::Tashtalk {
                Taken {
                    port: self,
                    what: InboundView::Handled,
                    acts: seq![
                        ActionView::ToLlap {
                            port: self.id,
                            llap: LlapView {
                                dst: l.dst,
                                src: l.dst,
                                typ: LLAP_ACK,
                                data: Seq::empty(),
                            },
                        },
                    ],
                }
            } else {
                self.took(InboundView::Handled)
            }
        } else if l.src == ours && self.node is Some {
            // Our own frame heard back.
            self.took(InboundView::Ignore)
        } else if l.typ == LLAP_ACK {
            // An ACK for someone else settles someone else's claim.
            self.took(InboundView::Handled)
        } else if l.typ == LLAP_SHORT_DDP {
            self.lifted(DdpView::from_short(l.data, self.range.0, l.dst, l.src))
        } else if l.typ == LLAP_LONG_DDP {
            self.lifted(DdpView::parse(l.data))
        } else {
            self.took(InboundView::Ignore)
        }
    }

    /// A datagram framed for this link. None until the port holds a node: a
    /// port with no address has no legal source to send from.
    pub open spec fn framed(self, dest: DestView, d: DdpView) -> Option<ActionView> {
        match (self.node, self.kind) {
            (None, _) => None,
            (Some(_), Kind::Ether { mac }) => Some(
                ActionView::ToEther {
                    port: self.id,
                    frame: node::frame_of(
                        mac,
                        match dest {
                            DestView::Node(n) => node::mac_of(
                                self.amt,
                                Addr { net: d.dst.net, node: n },
                            ),
                            DestView::Broadcast => broadcast_mac(),
                            DestView::Zone(z) => zip::multicast_of(z),
                        },
                        DDP,
                        d.bytes(),
                    ),
                },
            ),
            // LocalTalk has one multicast and it is the broadcast node ID, so
            // a zone-directed datagram goes to the whole cable. The short
            // header is only legal when both ends are on the one network it
            // leaves unsaid; net 0 means "this cable".
            (Some(node), _) => {
                let short = d.src.net == self.range.0 && (d.dst.net == self.range.0 || d.dst.net
                    == 0);
                Some(
                    ActionView::ToLlap {
                        port: self.id,
                        llap: LlapView {
                            dst: match dest {
                                DestView::Node(n) => n,
                                _ => 255,
                            },
                            src: node,
                            typ: if short {
                                LLAP_SHORT_DDP
                            } else {
                                LLAP_LONG_DDP
                            },
                            data: if short {
                                d.short_bytes()
                            } else {
                                d.bytes()
                            },
                        },
                    },
                )
            },
        }
    }
}

impl Port {
    pub fn new(
        id: PortId,
        name: String,
        kind: Kind,
        range: (u16, u16),
        zones: Vec<String>,
        now: u64,
    ) -> (r: Port)
        ensures
            r.deep_view() == (PortView {
                id,
                name: name@,
                kind,
                range,
                zones: zones.deep_view(),
                node: None,
                amt: Map::empty(),
                claim: Claim {
                    node: candidate_of(kind, seed_of(id, kind, now, 0)),
                    tries: 0,
                    next: now,
                    attempt: 0,
                },
            }),
            may_claim(kind, r.claim.node),
    {
        let node = candidate(kind, seed(id, kind, now, 0));
        Port {
            id,
            name,
            kind,
            range,
            zones,
            node: None,
            amt: Amt::new(),
            claim: Claim { node, tries: 0, next: now, attempt: 0 },
        }
    }

    /// Only EtherTalk carries the extended DDP header, so only an EtherTalk
    /// port may span a range of networks.
    pub fn extended(&self) -> (r: bool)
        ensures
            r == self.deep_view().extended(),
    {
        match self.kind {
            Kind::Ether { .. } => true,
            _ => false,
        }
    }

    pub fn addr(&self) -> (r: Option<Addr>)
        ensures
            r == self.deep_view().addr(),
    {
        match self.node {
            Some(node) => Some(Addr { net: self.range.0, node }),
            None => None,
        }
    }

    pub fn default_zone(&self) -> (r: &str)
        ensures
            r@ == (if self.zones@.len() > 0 {
                self.deep_view().zones[0]
            } else {
                ""@
            }),
    {
        if self.zones.len() > 0 {
            assert(self.deep_view().zones[0] == self.zones@[0]@);
            self.zones[0].as_str()
        } else {
            ""
        }
    }

    pub fn has_zone(&self, z: &str) -> (r: bool)
        ensures
            r == names::holds_name(self.deep_view().zones, z@),
    {
        names::holds(&self.zones, z)
    }

    /// The node ID we hold, or the one we are asking for.
    fn claiming_node(&self) -> (r: u8)
        ensures
            r == self.deep_view().claiming(),
    {
        match self.node {
            Some(n) => n,
            None => self.claim.node,
        }
    }

    fn schedule(&self) -> (r: (u32, u64))
        ensures
            r == self.deep_view().schedule(),
    {
        match self.kind {
            Kind::Ether { .. } => (PROBE_TRIES, PROBE_INTERVAL),
            _ => (ENQ_TRIES, ENQ_INTERVAL),
        }
    }

    fn claimed(&mut self) -> (r: Vec<Action>)
        ensures
            (final(self).deep_view(), r.deep_view()) == old(self).deep_view().claimed(),
    {
        let node = self.claim.node;
        self.node = Some(node);
        let addr = Addr { net: self.range.0, node };
        let mut line = fmt::text("port ");
        fmt::push_text(&mut line, self.name.as_str());
        fmt::push_text(&mut line, ": claimed ");
        addr.write(&mut line);
        assert(line@ =~= "port "@ + self.name@ + ": claimed "@ + addr.text());
        let ghost lv = line@;
        let mut out: Vec<Action> = Vec::new();
        out.push(Action::Log(line));
        if self.kind == Kind::Tashtalk {
            out.push(Action::SetNode { port: self.id, node: Some(node) });
            assert(out.deep_view() =~= seq![
                ActionView::Log(lv),
                ActionView::SetNode { port: self.id, node: Some(node) },
            ]);
        } else {
            assert(out.deep_view() =~= seq![ActionView::Log(lv)]);
        }
        out
    }

    /// The address is taken: pick another and start the round over.
    fn restart(&mut self, now: u64)
        ensures
            final(self).deep_view() == old(self).deep_view().restarted(now),
    {
        let attempt = self.claim.attempt.wrapping_add(1);
        let mut n = candidate(self.kind, seed(self.id, self.kind, now, attempt));
        if n == self.claim.node {
            n = next_node(self.kind, n);
        }
        self.claim = Claim { node: n, tries: 0, next: now, attempt };
    }

    /// Drives the claim. Call on every tick; it does nothing once the port is
    /// claimed.
    pub fn tick(&mut self, now: u64) -> (r: Vec<Action>)
        ensures
            (final(self).deep_view(), r.deep_view()) == old(self).deep_view().ticked(now),
    {
        let ghost v = self.deep_view();
        let mut out: Vec<Action> = Vec::new();
        assert(out.deep_view() =~= Seq::empty());
        if self.node.is_some() || now < self.claim.next {
            return out;
        }
        let (tries, interval) = self.schedule();
        if self.claim.tries >= tries {
            return self.claimed();
        }
        self.claim.tries = self.claim.tries + 1;
        self.claim.next = now.saturating_add(interval);
        let node = self.claim.node;
        match self.kind {
            Kind::Ether { mac } => {
                let a = probe(Addr { net: self.range.0, node }, mac);
                let frame = node::frame(mac, broadcast_mac(), AARP, a.to_bytes());
                out.push(Action::ToEther { port: self.id, frame });
            },
            _ => {
                out.push(Action::ToLlap { port: self.id, llap: Llap::control(node, node, LLAP_ENQ) });
            },
        }
        assert(out.deep_view() =~= seq![v.asking()]);
        out
    }

    fn inbound_aarp(&mut self, p: &Packet, mac: MacAddr, now: u64) -> (r: Vec<Action>)
        requires
            p.body is Aarp,
        ensures
            ({
                let t = old(self).deep_view().aarp(p.deep_view(), mac, now);
                &&& final(self).deep_view() == t.port
                &&& t.what == InboundView::Handled
                &&& r.deep_view() == t.acts
            }),
    {
        let mut out: Vec<Action> = Vec::new();
        assert(out.deep_view() =~= Seq::empty());
        if let Body::Aarp(a) = &p.body {
            let probing = self.node.is_none();
            let ours = Addr { net: self.range.0, node: self.claiming_node() };
            match aarp_action(p, ours, mac, probing) {
                AarpAction::Conflict => if probing {
                    self.restart(now);
                } else {
                    let mut line = fmt::text("port ");
                    fmt::push_text(&mut line, self.name.as_str());
                    fmt::push_text(&mut line, ": ");
                    ours.write(&mut line);
                    fmt::push_text(&mut line, " claimed by ");
                    a.src_hw.write(&mut line);
                    assert(line@ =~= "port "@ + self.name@ + ": "@ + ours.text() + " claimed by "@
                        + a.src_hw.text());
                    let ghost lv = line@;
                    out.push(Action::Log(line));
                    assert(out.deep_view() =~= seq![ActionView::Log(lv)]);
                },
                AarpAction::AnswerTo(to) => {
                    let r = aarp_response(ours, mac, a.src, to);
                    let frame = node::frame(mac, to, AARP, r.to_bytes());
                    let ghost fv = frame.deep_view();
                    out.push(Action::ToEther { port: self.id, frame });
                    assert(out.deep_view() =~= seq![
                        ActionView::ToEther { port: self.id, frame: fv },
                    ]);
                },
                AarpAction::Ignore => {},
            }
        }
        out
    }

    /// Ethernet input: glean, defend, and pass datagrams up.
    pub fn inbound_ether(&mut self, p: &Packet, now: u64) -> (r: (Inbound, Vec<Action>))
        ensures
            ({
                let t = old(self).deep_view().ether(p.deep_view(), now);
                &&& final(self).deep_view() == t.port
                &&& r.0.deep_view() == t.what
                &&& r.1.deep_view() == t.acts
            }),
    {
        let none: Vec<Action> = Vec::new();
        assert(none.deep_view() =~= Seq::empty());
        let mac = match self.kind {
            Kind::Ether { mac } => mac,
            _ => {
                return (Inbound::Ignore, none);
            },
        };
        glean(&mut self.amt, p);
        match &p.body {
            Body::Aarp(_) => {
                let out = self.inbound_aarp(p, mac, now);
                (Inbound::Handled, out)
            },
            // Both header forms reach Ethernet as extended, so there is
            // nothing to lift.
            Body::Ddp(d, _) => if p.frame.src == mac {
                (Inbound::Ignore, none)
            } else {
                (Inbound::Ddp(d.clone()), none)
            },
            Body::Unknown => (Inbound::Ignore, none),
        }
    }

    /// LocalTalk input.
    pub fn inbound_llap(&mut self, l: &Llap, now: u64) -> (r: (Inbound, Vec<Action>))
        ensures
            ({
                let t = old(self).deep_view().llap(l.deep_view(), now);
                &&& final(self).deep_view() == t.port
                &&& r.0.deep_view() == t.what
                &&& r.1.deep_view() == t.acts
            }),
    {
        let mut out: Vec<Action> = Vec::new();
        assert(out.deep_view() =~= Seq::empty());
        let ours = self.claiming_node();
        if self.node.is_none() && (l.typ == LLAP_ENQ || l.typ == LLAP_ACK) && l.dst == ours {
            self.restart(now);
            return (Inbound::Handled, out);
        }
        // An ENQ names the ID under discussion in *both* node bytes, so this
        // has to come before the own-frame filter below: an ENQ for our own
        // address arrives looking like one of ours.
        if l.typ == LLAP_ENQ {
            let held = match self.node {
                Some(n) => n == l.dst,
                None => false,
            };
            if held && self.kind != Kind::Tashtalk {
                let ack = Llap::control(l.dst, l.dst, LLAP_ACK);
                let ghost av = ack.deep_view();
                out.push(Action::ToLlap { port: self.id, llap: ack });
                assert(out.deep_view() =~= seq![ActionView::ToLlap { port: self.id, llap: av }]);
            }
            return (Inbound::Handled, out);
        }
        if l.src == ours && self.node.is_some() {
            return (Inbound::Ignore, out);
        }
        let got = match l.typ {
            LLAP_ACK => Inbound::Handled,
            // A short header omits what LLAP already said: the node IDs, and
            // the single network both ends share.
            LLAP_SHORT_DDP => match Ddp::from_short(
                l.data.as_slice(),
                self.range.0,
                l.dst,
                l.src,
            ) {
                Some(d) => Inbound::Ddp(d),
                None => Inbound::Ignore,
            },
            LLAP_LONG_DDP => match Ddp::parse(l.data.as_slice()) {
                Some(d) => Inbound::Ddp(d),
                None => Inbound::Ignore,
            },
            _ => Inbound::Ignore,
        };
        (got, out)
    }

    /// Frames a datagram for this link.
    pub fn emit(&self, dest: &Dest, ddp: &Ddp) -> (r: Option<Action>)
        ensures
            r.deep_view() == self.deep_view().framed(dest.deep_view(), ddp.deep_view()),
    {
        let node = match self.node {
            Some(n) => n,
            None => {
                return None;
            },
        };
        match self.kind {
            Kind::Ether { mac } => {
                let dst = match dest {
                    Dest::Node(n) => mac_for(&self.amt, Addr { net: ddp.dst.net, node: *n }),
                    Dest::Broadcast => broadcast_mac(),
                    Dest::Zone(z) => zone_multicast(z.as_str()),
                };
                Some(
                    Action::ToEther {
                        port: self.id,
                        frame: node::frame(mac, dst, DDP, ddp.to_bytes()),
                    },
                )
            },
            _ => {
                let dst: u8 = match dest {
                    Dest::Node(n) => *n,
                    Dest::Broadcast | Dest::Zone(_) => 255,
                };
                let short = ddp.src.net == self.range.0 && (ddp.dst.net == self.range.0
                    || ddp.dst.net == 0);
                let (typ, data) = if short {
                    (LLAP_SHORT_DDP, ddp.to_short_bytes())
                } else {
                    (LLAP_LONG_DDP, ddp.to_bytes())
                };
                Some(Action::ToLlap { port: self.id, llap: Llap { dst, src: node, typ, data } })
            },
        }
    }
}

// --------------------------------------------------------------------- laws

/// Law: a port that has to give way asks next for another node ID, one that
/// its link allows.
pub proof fn law_a_restart_moves_on(p: PortView, now: u64)
    ensures
        p.restarted(now).claim.node != p.claim.node,
        may_claim(p.kind, p.restarted(now).claim.node),
        p.restarted(now).claim.tries == 0,
{
}

/// Law: a port holds an address only after a full round of probes or ENQs and
/// an interval of silence after the last, and it is the one it asked for.
pub proof fn law_a_claim_takes_a_full_round(p: PortView, now: u64)
    requires
        p.node is None,
        p.ticked(now).0.node is Some,
    ensures
        p.claim.tries >= p.schedule().0,
        now >= p.claim.next,
        p.ticked(now).0.node == Some(p.claim.node),
{
}

/// Law: while it claims, a port answers nothing, and once it holds an address
/// nothing it hears takes it away.
pub proof fn law_a_claiming_port_is_silent(p: PortView, e: PacketView, l: LlapView, now: u64)
    ensures
        p.node is None ==> p.ether(e, now).acts.len() == 0 && p.llap(l, now).acts.len() == 0,
        p.node is Some ==> p.ether(e, now).port.node == p.node && p.llap(l, now).port.node
            == p.node,
{
}

/// Law: nothing goes out of a port without an address.
pub proof fn law_no_address_no_traffic(p: PortView, dest: DestView, d: DdpView)
    ensures
        p.framed(dest, d) is None <==> p.node is None,
{
}

/// Law: a datagram that one LocalTalk port frames for its cable is what
/// another port on the same network lifts off it, whichever header it took.
pub proof fn law_localtalk_delivers(a: PortView, b: PortView, d: DdpView, now: u64)
    requires
        !(a.kind is Ether),
        a.range.0 == b.range.0,
        a.node is Some && b.node is Some,
        a.node != b.node,
        d.valid(),
        d.src.net == a.range.0,
        d.src.node == a.node->0,
        d.dst.net == a.range.0 || d.dst.net != 0,
        d.dst.net == a.range.0 ==> d.hops == 0 && d.checksum == 0,
    ensures
        a.framed(DestView::Node(d.dst.node), d) matches Some(ActionView::ToLlap { llap, .. })
            && b.llap(llap, now).what == InboundView::Ddp(d),
{
    let n = d.dst.node;
    if d.dst.net == a.range.0 {
        let s = d.short_bytes();
        assert(s.len() == 5 + d.data.len());
        assert(s.skip(5) =~= d.data);
        assert(s[2] == d.dst_socket && s[3] == d.src_socket && s[4] == d.typ);
        assert(DdpView::from_short(s, b.range.0, n, d.src.node) == Some(d));
    } else {
        crate::wire::ddp::law_round_trip(d);
    }
}

} // verus!
