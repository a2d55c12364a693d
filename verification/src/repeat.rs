//! What the bridge does with what arrives on either link.
//!
//! DDP is repeated both ways, extended headers byte for byte. Address
//! arbitration is not: AARP ends at the bridge, and so do LocalTalk's node-ID
//! enquiries, because the two sides settle who holds an ID differently.

use vstd::prelude::*;
use vstd::slice::*;

use crate::addr::MacAddr;
use crate::bridge::{nothing, only, Action, ActionView, Ask, Bridge, BridgeView, Owed, Pending, Side};
use crate::capture::Event;
use crate::node;
use crate::node::{aarp_response, broadcast_mac, frame, mac_for};
use crate::wire::ddp::DdpView;
use crate::wire::frame::{BodyView, FrameView, PacketView};
use crate::wire::llap::LlapView;
use crate::wire::{push_bytes, Aarp, Addr, Body, Ddp, Encode, Frame, Llap, Packet, AARP, DDP, LLAP_ACK, LLAP_ENQ, LLAP_LONG_DDP, LLAP_SHORT_DDP};

verus! {

/// Node 0 is not allowed and 255 is the broadcast ID; neither is a node.
pub open spec fn is_node(n: u8) -> bool {
    n != 0 && n != 255
}

/// What a step comes to.
pub type Stepped = (BridgeView, Seq<ActionView>);

impl BridgeView {
    /// An address on the one network the bridge joins. Network 0 is whichever
    /// one a datagram is on.
    pub open spec fn on_cable(self, a: Addr) -> bool {
        a.net == self.addr.net || a.net == 0
    }

    /// Whether hearing a node on a side contradicts what is believed of it.
    pub open spec fn contradicts(self, node: u8, side: Side) -> bool {
        self.nodes.contains_key(node) && !self.nodes[node].side.same_link(side)
    }

    pub open spec fn doubts(self, node: u8) -> bool {
        self.nodes.contains_key(node) && self.nodes[node].doubted
    }

    pub open spec fn with_mac(self, a: Addr, mac: MacAddr) -> BridgeView {
        BridgeView { amt: self.amt.insert(a, mac), ..self }
    }

    /// An AARP Response for an address of ours, or of a node we answer for. It
    /// gives our own MAC, which is exactly where the traffic should go.
    pub open spec fn answer(self, a: Addr, to: Addr, to_mac: MacAddr) -> ActionView {
        ActionView::ToEther(
            node::frame_of(
                self.mac,
                to_mac,
                AARP,
                node::response_of(a, self.mac, to, to_mac).bytes(),
            ),
        )
    }

    /// A node heard from on a side that answers whatever was asked about it.
    pub open spec fn answered(self, node: u8, side: Side, now: u64) -> Stepped {
        let (b, first) = self.confirmed(node, side, now);
        let (c, then) = b.settled(node, side);
        (c, first + then)
    }

    /// Puts the question who holds an ID to both links at once, since either
    /// answer settles it.
    pub open spec fn asked_both(self, node: u8, now: u64) -> Stepped {
        if self.pending.contains_key(node) {
            (self, Seq::empty())
        } else {
            (
                BridgeView {
                    pending: self.pending.insert(
                        node,
                        Pending { asked: now, owed: Owed::Nothing, moved_to: None },
                    ),
                    ..self
                },
                seq![
                    self.question(node, Ask::Ether, Owed::Nothing),
                    self.question(node, Ask::Local, Owed::Nothing),
                ],
            )
        }
    }

    /// AARP never crosses. A Request may be answered from memory: a resolve
    /// only routes traffic, and the data path checks again. A Probe may not,
    /// because a Probe is a claim, and denying a claim on the strength of a
    /// stale memory locks a returning node out of its own ID.
    pub open spec fn from_aarp(self, a: Aarp, now: u64) -> Stepped {
        let asks = a.op == 1 || a.op == 3;
        let owed = Owed::EtherResponse { to: a.src, to_mac: a.src_hw };
        if asks && a.dst == self.addr {
            (self, seq![self.answer(self.addr, a.src, a.src_hw)])
        } else if a.op == 2 {
            if a.src.net != self.addr.net {
                (self.with_mac(a.src, a.src_hw), Seq::empty())
            } else {
                self.answered(a.src.node, Side::Ether(a.src_hw), now)
            }
        } else if !asks || a.dst.net != self.addr.net || !is_node(a.dst.node) {
            (self, Seq::empty())
        } else {
            match self.live(a.dst.node) {
                Some(Side::Local) => if a.op == 1 {
                    (self, seq![self.answer(a.dst, a.src, a.src_hw)])
                } else {
                    self.asked(a.dst.node, Ask::Local, owed, None, now)
                },
                Some(Side::Ether(_)) => (self, Seq::empty()),
                None => self.asked(a.dst.node, Ask::Local, owed, None, now),
            }
        }
    }

    /// The LLAP frame that carries a datagram on, byte for byte. What comes
    /// from another network is sent by us, as far as the link is concerned.
    pub open spec fn crossing(self, d: DdpView, payload: Seq<u8>) -> ActionView {
        ActionView::ToLocal(
            LlapView {
                dst: d.dst.node,
                src: if self.on_cable(d.src) {
                    d.src.node
                } else {
                    self.addr.node
                },
                typ: LLAP_LONG_DDP,
                data: payload,
            },
        )
    }

    /// Where a datagram off the Ethernet goes, its source dealt with.
    pub open spec fn repeated(self, d: DdpView, payload: Seq<u8>, now: u64) -> Stepped {
        let cross = seq![self.crossing(d, payload)];
        if d.dst.node == 255 {
            (self, cross)
        } else if !self.on_cable(d.dst) {
            // The router's business.
            (self, Seq::empty())
        } else if d.dst.node == self.addr.node {
            (self, Seq::empty())
        } else if self.doubts(d.dst.node) {
            // Nothing crosses until the doubt clears.
            (self, Seq::empty())
        } else {
            match self.live(d.dst.node) {
                Some(Side::Local) => (self, cross),
                // Already where it needs to be.
                Some(Side::Ether(_)) => (self, Seq::empty()),
                // It crosses anyway: an answer could not arrive in time to
                // filter it.
                None => if is_node(d.dst.node) {
                    let (b, asks) = self.asked_both(d.dst.node, now);
                    (b, cross + asks)
                } else {
                    (self, cross)
                },
            }
        }
    }

    /// A datagram off the Ethernet. The source is dealt with first, before any
    /// decision about the destination.
    pub open spec fn from_ddp(self, d: DdpView, f: FrameView, now: u64) -> Stepped {
        if !self.on_cable(d.src) {
            self.with_mac(d.src, f.src).repeated(d, f.payload, now)
        } else {
            let side = Side::Ether(f.src);
            let (b, first) = self.confirmed(d.src.node, side, now);
            if self.contradicts(d.src.node, side) {
                (b, first)
            } else {
                let (c, then) = b.repeated(d, f.payload, now);
                (c, first + then)
            }
        }
    }

    /// A frame off the Ethernet. Our own transmissions are heard back, and
    /// Phase 1 has no length field to trim the padding by.
    pub open spec fn from_ether(self, p: PacketView, now: u64) -> Stepped {
        if p.frame.src == self.mac || !p.frame.snap {
            (self, Seq::empty())
        } else {
            match p.body {
                BodyView::Aarp(a) => self.from_aarp(a, now),
                BodyView::Ddp(d, _) => self.from_ddp(d, p.frame, now),
                BodyView::Unknown => (self, Seq::empty()),
            }
        }
    }

    /// Which Ethernet address a datagram off LocalTalk goes to.
    pub open spec fn ether_for(self, l: LlapView, d: DdpView) -> MacAddr {
        if l.dst == 255 || d.dst.node == 255 {
            broadcast_mac()
        } else if !self.on_cable(d.dst) {
            node::mac_of(self.amt, d.dst)
        } else {
            match self.live(d.dst.node) {
                Some(Side::Ether(mac)) => mac,
                _ => broadcast_mac(),
            }
        }
    }

    /// A datagram off LocalTalk, as `payload` on the Ethernet.
    pub open spec fn from_local_ddp(self, l: LlapView, d: DdpView, payload: Seq<u8>, now: u64) -> Stepped {
        let (b, first) = self.confirmed(l.src, Side::Local, now);
        if self.contradicts(l.src, Side::Local) {
            (b, first)
        } else {
            (
                b,
                first.push(
                    ActionView::ToEther(node::frame_of(b.mac, b.ether_for(l, d), DDP, payload)),
                ),
            )
        }
    }

    /// A frame off LocalTalk. A short header is lifted to the extended form,
    /// with our network number; an extended one is sent on unchanged, so hop
    /// counts and checksum survive.
    ///
    /// An enquiry is never answered from memory: the memory of a node that
    /// switched off long ago would deny its ID to whoever asked. So Ethernet is
    /// asked, and the acknowledgement owed until something has answered. Our
    /// own ID is acknowledged at once: that is defending our address.
    pub open spec fn from_local(self, l: LlapView, now: u64) -> Stepped {
        if l.typ == LLAP_SHORT_DDP {
            match DdpView::from_short(l.data, self.addr.net, l.dst, l.src) {
                Some(d) => self.from_local_ddp(l, d, d.bytes(), now),
                None => (self, Seq::empty()),
            }
        } else if l.typ == LLAP_LONG_DDP {
            match DdpView::parse(l.data) {
                Some(d) => self.from_local_ddp(l, d, l.data, now),
                None => (self, Seq::empty()),
            }
        } else if l.typ == LLAP_ENQ {
            if l.dst == self.addr.node {
                (
                    self,
                    seq![
                        ActionView::ToLocal(
                            LlapView { dst: l.dst, src: l.dst, typ: LLAP_ACK, data: Seq::empty() },
                        ),
                    ],
                )
            } else if is_node(l.dst) {
                self.asked(l.dst, Ask::Ether, Owed::LocalAck, None, now)
            } else {
                (self, Seq::empty())
            }
        } else if l.typ == LLAP_ACK {
            self.answered(l.src, Side::Local, now)
        } else {
            (self, Seq::empty())
        }
    }

    /// One event, once whatever was overdue at that time is settled.
    pub open spec fn stepped(self, e: Event, now: u64) -> Stepped {
        let b = self.expired(now);
        let late = self.moves(256, now);
        match e {
            Event::Packet { packet, .. } => {
                let (c, then) = b.from_ether(packet.deep_view(), now);
                (c, late + then)
            },
            Event::Llap { llap, .. } => {
                let (c, then) = b.from_local(llap.deep_view(), now);
                (c, late + then)
            },
            _ => (b, late),
        }
    }
}

// ----------------------------------------------------------------- the bridge

/// One list after the other.
fn joined(first: Vec<Action>, then: Vec<Action>) -> (r: Vec<Action>)
    ensures
        r.deep_view() == first.deep_view() + then.deep_view(),
{
    let mut out = first;
    let mut then = then;
    let ghost fv = out.deep_view();
    let ghost tv = then.deep_view();
    out.append(&mut then);
    assert(out.deep_view() =~= fv + tv);
    out
}

fn copied(b: &[u8]) -> (r: Vec<u8>)
    ensures
        r@ == b@,
{
    let mut out: Vec<u8> = Vec::new();
    push_bytes(&mut out, b);
    assert(out@ =~= b@);
    out
}

impl Bridge {
    fn holds_cable(&self, a: Addr) -> (r: bool)
        ensures
            r == self.deep_view().on_cable(a),
    {
        a.net == self.addr.net || a.net == 0
    }

    fn contradicted(&self, node: u8, local: bool) -> (r: bool)
        ensures
            local ==> r == self.deep_view().contradicts(node, Side::Local),
            forall|m: MacAddr| !local ==> r == self.deep_view().contradicts(node, Side::Ether(m)),
    {
        match self.nodes.get(&node) {
            Some(e) => match e.side {
                Side::Ether(_) => local,
                Side::Local => !local,
            },
            None => false,
        }
    }

    fn response(&self, a: Addr, to: Addr, to_mac: MacAddr) -> (r: Vec<Action>)
        ensures
            r.deep_view() == seq![self.deep_view().answer(a, to, to_mac)],
    {
        let r = aarp_response(a, self.mac, to, to_mac);
        only(Action::ToEther(frame(self.mac, to_mac, AARP, r.to_bytes())))
    }

    fn answer_from(&mut self, node: u8, side: Side, now: u64) -> (r: Vec<Action>)
        ensures
            (final(self).deep_view(), r.deep_view()) == old(self).deep_view().answered(
                node,
                side,
                now,
            ),
    {
        let first = self.confirm(node, side, now);
        let then = self.settle(node, side, now);
        joined(first, then)
    }

    fn ask_both(&mut self, node: u8, now: u64) -> (r: Vec<Action>)
        ensures
            (final(self).deep_view(), r.deep_view()) == old(self).deep_view().asked_both(node, now),
    {
        let first = self.ask(node, Ask::Ether, Owed::Nothing, None, now);
        if first.len() == 0 {
            assert(first.deep_view() =~= Seq::empty());
            return first;
        }
        let enquiry = only(Action::ToLocal(Llap::control(node, node, LLAP_ENQ)));
        let out = joined(first, enquiry);
        assert(out.deep_view() =~= old(self).deep_view().asked_both(node, now).1);
        out
    }

    fn on_aarp(&mut self, a: &Aarp, now: u64) -> (r: Vec<Action>)
        ensures
            (final(self).deep_view(), r.deep_view()) == old(self).deep_view().from_aarp(*a, now),
    {
        let asks = a.op == 1 || a.op == 3;
        let owed = Owed::EtherResponse { to: a.src, to_mac: a.src_hw };
        if asks && a.dst == self.addr {
            return self.response(self.addr, a.src, a.src_hw);
        }
        if a.op == 2 {
            if a.src.net != self.addr.net {
                self.amt.insert(a.src, a.src_hw);
                return nothing();
            }
            return self.answer_from(a.src.node, Side::Ether(a.src_hw), now);
        }
        if !asks || a.dst.net != self.addr.net || a.dst.node == 0 || a.dst.node == 255 {
            return nothing();
        }
        match self.live(a.dst.node) {
            Some(Side::Local) => if a.op == 1 {
                self.response(a.dst, a.src, a.src_hw)
            } else {
                self.ask(a.dst.node, Ask::Local, owed, None, now)
            },
            Some(Side::Ether(_)) => nothing(),
            None => self.ask(a.dst.node, Ask::Local, owed, None, now),
        }
    }

    fn cross(&self, d: &Ddp, payload: &Vec<u8>) -> (r: Vec<Action>)
        ensures
            r.deep_view() == seq![self.deep_view().crossing(d.deep_view(), payload@)],
    {
        let src: u8 = if self.holds_cable(d.src) {
            d.src.node
        } else {
            self.addr.node
        };
        only(
            Action::ToLocal(
                Llap {
                    dst: d.dst.node,
                    src,
                    typ: LLAP_LONG_DDP,
                    data: copied(payload.as_slice()),
                },
            ),
        )
    }

    fn repeat(&mut self, d: &Ddp, payload: &Vec<u8>, now: u64) -> (r: Vec<Action>)
        ensures
            (final(self).deep_view(), r.deep_view()) == old(self).deep_view().repeated(
                d.deep_view(),
                payload@,
                now,
            ),
    {
        if d.dst.node == 255 {
            return self.cross(d, payload);
        }
        if !self.holds_cable(d.dst) || d.dst.node == self.addr.node {
            return nothing();
        }
        let doubted = match self.nodes.get(&d.dst.node) {
            Some(e) => e.doubted,
            None => false,
        };
        if doubted {
            return nothing();
        }
        match self.live(d.dst.node) {
            Some(Side::Local) => self.cross(d, payload),
            Some(Side::Ether(_)) => nothing(),
            None => {
                let first = self.cross(d, payload);
                if d.dst.node == 0 {
                    return first;
                }
                let asks = self.ask_both(d.dst.node, now);
                joined(first, asks)
            },
        }
    }

    fn on_ddp(&mut self, d: &Ddp, f: &Frame, now: u64) -> (r: Vec<Action>)
        ensures
            (final(self).deep_view(), r.deep_view()) == old(self).deep_view().from_ddp(
                d.deep_view(),
                f.deep_view(),
                now,
            ),
    {
        if !self.holds_cable(d.src) {
            self.amt.insert(d.src, f.src);
            return self.repeat(d, &f.payload, now);
        }
        let contradicted = self.contradicted(d.src.node, false);
        let first = self.confirm(d.src.node, Side::Ether(f.src), now);
        if contradicted {
            return first;
        }
        let then = self.repeat(d, &f.payload, now);
        joined(first, then)
    }

    /// A frame off the Ethernet.
    pub fn hear_ether(&mut self, p: &Packet, now: u64) -> (r: Vec<Action>)
        ensures
            (final(self).deep_view(), r.deep_view()) == old(self).deep_view().from_ether(
                p.deep_view(),
                now,
            ),
    {
        if p.frame.src == self.mac || !p.frame.snap {
            return nothing();
        }
        match &p.body {
            Body::Aarp(a) => self.on_aarp(a, now),
            Body::Ddp(d, _) => self.on_ddp(d, &p.frame, now),
            Body::Unknown => nothing(),
        }
    }

    fn mac_toward(&self, l: &Llap, d: &Ddp) -> (r: MacAddr)
        ensures
            r == self.deep_view().ether_for(l.deep_view(), d.deep_view()),
    {
        if l.dst == 255 || d.dst.node == 255 {
            broadcast_mac()
        } else if !self.holds_cable(d.dst) {
            mac_for(&self.amt, d.dst)
        } else {
            match self.live(d.dst.node) {
                Some(Side::Ether(mac)) => mac,
                _ => broadcast_mac(),
            }
        }
    }

    fn on_local_ddp(&mut self, l: &Llap, d: &Ddp, payload: Vec<u8>, now: u64) -> (r: Vec<Action>)
        ensures
            (final(self).deep_view(), r.deep_view()) == old(self).deep_view().from_local_ddp(
                l.deep_view(),
                d.deep_view(),
                payload@,
                now,
            ),
    {
        let contradicted = self.contradicted(l.src, true);
        let first = self.confirm(l.src, Side::Local, now);
        if contradicted {
            return first;
        }
        let mac = self.mac_toward(l, d);
        let ghost fv = first.deep_view();
        let then = only(Action::ToEther(frame(self.mac, mac, DDP, payload)));
        let ghost tv = then.deep_view();
        let out = joined(first, then);
        assert(out.deep_view() =~= fv.push(tv[0]));
        out
    }

    /// A frame off LocalTalk.
    pub fn hear_local(&mut self, l: &Llap, now: u64) -> (r: Vec<Action>)
        ensures
            (final(self).deep_view(), r.deep_view()) == old(self).deep_view().from_local(
                l.deep_view(),
                now,
            ),
    {
        match l.typ {
            LLAP_SHORT_DDP => match Ddp::from_short(
                l.data.as_slice(),
                self.addr.net,
                l.dst,
                l.src,
            ) {
                Some(d) => {
                    let payload = d.to_bytes();
                    self.on_local_ddp(l, &d, payload, now)
                },
                None => nothing(),
            },
            LLAP_LONG_DDP => match Ddp::parse(l.data.as_slice()) {
                Some(d) => {
                    let payload = copied(l.data.as_slice());
                    self.on_local_ddp(l, &d, payload, now)
                },
                None => nothing(),
            },
            LLAP_ENQ => if l.dst == self.addr.node {
                only(Action::ToLocal(Llap::control(l.dst, l.dst, LLAP_ACK)))
            } else if l.dst != 0 && l.dst != 255 {
                self.ask(l.dst, Ask::Ether, Owed::LocalAck, None, now)
            } else {
                nothing()
            },
            LLAP_ACK => self.answer_from(l.src, Side::Local, now),
            _ => nothing(),
        }
    }

    /// What one event at a time comes to. Whatever is overdue by then is
    /// settled first, so that no late answer is believed.
    pub fn step(&mut self, e: &Event, now: u64) -> (r: Vec<Action>)
        ensures
            (final(self).deep_view(), r.deep_view()) == old(self).deep_view().stepped(*e, now),
    {
        let late = self.expire(now);
        match e {
            Event::Packet { packet, .. } => {
                let then = self.hear_ether(packet, now);
                joined(late, then)
            },
            Event::Llap { llap, .. } => {
                let then = self.hear_local(llap, now);
                joined(late, then)
            },
            _ => late,
        }
    }
}

// ----------------------------------------------------------------------- laws

/// What carries a datagram.
pub open spec fn carries_data(a: ActionView) -> bool {
    match a {
        ActionView::ToEther(f) => f.proto == DDP,
        ActionView::ToLocal(l) => l.typ == LLAP_LONG_DDP || l.typ == LLAP_SHORT_DDP,
        ActionView::Report(_) => false,
    }
}

/// Law: a frame of our own, heard back, does nothing; nor does Phase 1, nor
/// what is neither AARP nor DDP.
pub proof fn law_what_is_not_bridged_does_nothing(b: BridgeView, p: PacketView, now: u64)
    requires
        p.frame.src == b.mac || !p.frame.snap || p.body is Unknown,
    ensures
        b.from_ether(p, now) == (b, Seq::<ActionView>::empty()),
{
}

/// Law: AARP never crosses, whatever it says.
pub proof fn law_aarp_never_crosses(b: BridgeView, p: PacketView, now: u64)
    requires
        p.body is Aarp,
    ensures
        forall|i: int|
            0 <= i < b.from_ether(p, now).1.len() ==> !carries_data(
                #[trigger] b.from_ether(p, now).1[i],
            ),
{
}

/// Law: a datagram is never sent back to the link it came from, and what
/// crosses to LocalTalk is the frame's payload, byte for byte.
pub proof fn law_ethernet_is_repeated_onto_localtalk_alone(b: BridgeView, p: PacketView, now: u64)
    ensures
        forall|i: int|
            0 <= i < b.from_ether(p, now).1.len() && carries_data(
                #[trigger] b.from_ether(p, now).1[i],
            ) ==> (b.from_ether(p, now).1[i] matches ActionView::ToLocal(l) && l.data
                == p.frame.payload && l.typ == LLAP_LONG_DDP),
{
}

/// Law: a datagram off LocalTalk goes to the Ethernet alone, from our own MAC,
/// and an extended one goes byte for byte.
pub proof fn law_localtalk_is_repeated_onto_ethernet_alone(b: BridgeView, l: LlapView, now: u64)
    ensures
        forall|i: int|
            0 <= i < b.from_local(l, now).1.len() && carries_data(
                #[trigger] b.from_local(l, now).1[i],
            ) ==> (b.from_local(l, now).1[i] matches ActionView::ToEther(f) && f.src == b.mac
                && (l.typ == LLAP_LONG_DDP ==> f.payload == l.data)),
{
}

/// Law: while an ID is in doubt nothing off the Ethernet is forwarded to it,
/// whoever sends.
pub proof fn law_nothing_is_forwarded_in_doubt(b: BridgeView, p: PacketView, d: DdpView, now: u64)
    requires
        p.body matches BodyView::Ddp(e, _) && e == d,
        b.doubts(d.dst.node),
        d.dst.node != 255,
    ensures
        forall|i: int|
            0 <= i < b.from_ether(p, now).1.len() ==> !carries_data(
                #[trigger] b.from_ether(p, now).1[i],
            ),
{
}

/// Law: a node heard on the Ethernet that should not be there is not repeated.
pub proof fn law_a_contradiction_is_not_repeated(b: BridgeView, p: PacketView, d: DdpView, now: u64)
    requires
        p.body matches BodyView::Ddp(e, _) && e == d,
        b.on_cable(d.src),
        b.contradicts(d.src.node, Side::Ether(p.frame.src)),
    ensures
        forall|i: int|
            0 <= i < b.from_ether(p, now).1.len() ==> !carries_data(
                #[trigger] b.from_ether(p, now).1[i],
            ),
{
}

/// Law: nor is a node heard on LocalTalk that should not be there, whichever
/// header it sends.
pub proof fn law_a_contradiction_on_localtalk_is_not_repeated(b: BridgeView, l: LlapView, now: u64)
    requires
        l.typ == LLAP_SHORT_DDP || l.typ == LLAP_LONG_DDP,
        b.contradicts(l.src, Side::Local),
    ensures
        forall|i: int|
            0 <= i < b.from_local(l, now).1.len() ==> !carries_data(
                #[trigger] b.from_local(l, now).1[i],
            ),
{
}

/// Law: an enquiry for an ID that is not ours is never acknowledged from
/// memory: whatever the table holds, nothing goes back to LocalTalk for it.
pub proof fn law_enquiries_are_never_answered_from_memory(b: BridgeView, l: LlapView, now: u64)
    requires
        l.typ == LLAP_ENQ,
        l.dst != b.addr.node,
    ensures
        forall|i: int|
            0 <= i < b.from_local(l, now).1.len() ==> #[trigger] b.from_local(l, now).1[i] is ToEther,
{
}

/// Law: an AARP Probe is a claim, and is never answered from memory; only our
/// own address is defended at once.
pub proof fn law_probes_are_never_answered_from_memory(b: BridgeView, p: PacketView, a: Aarp, now: u64)
    requires
        p.body matches BodyView::Aarp(c) && c == a,
        a.op == 3,
        a.dst != b.addr,
    ensures
        forall|i: int|
            0 <= i < b.from_ether(p, now).1.len() ==> #[trigger] b.from_ether(p, now).1[i] is ToLocal,
{
}

/// Law: an unknown destination is reached all the same, and both links are
/// asked who holds it.
pub proof fn law_the_unknown_crosses_and_is_asked_about(b: BridgeView, d: DdpView, payload: Seq<u8>, now: u64)
    requires
        b.on_cable(d.dst),
        is_node(d.dst.node),
        d.dst.node != b.addr.node,
        !b.nodes.contains_key(d.dst.node),
        !b.pending.contains_key(d.dst.node),
    ensures
        b.repeated(d, payload, now).1 == seq![
            b.crossing(d, payload),
            b.question(d.dst.node, Ask::Ether, Owed::Nothing),
            b.question(d.dst.node, Ask::Local, Owed::Nothing),
        ],
        b.repeated(d, payload, now).0.pending.contains_key(d.dst.node),
{
    assert(b.repeated(d, payload, now).1 =~= seq![
        b.crossing(d, payload),
        b.question(d.dst.node, Ask::Ether, Owed::Nothing),
        b.question(d.dst.node, Ask::Local, Owed::Nothing),
    ]);
}

} // verus!
