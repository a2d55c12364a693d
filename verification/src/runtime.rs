//! The node runtime: what a node does with each packet it hears, and what it
//! sends next to claim an address, look up names, walk the zone list and ping.
//!
//! Nothing here touches a socket or a clock. Whoever drives it sends the
//! frames it hands out, waits as long as it says, and tells it what came back
//! -- or that nothing did.

use vstd::prelude::*;
use vstd::string::*;

use crate::addr::MacAddr;
use crate::amt::Amt;
use crate::fmt;
use crate::node;
use crate::order;
use crate::node::{aarp_action, aarp_response, broadcast_mac, datagram, frame, glean, lookup_replies, lookup_request, mac_for, merge, netinfo_verdict, next_start, pick_address, probe, zone_list_request, zone_reply_matches, AarpAction, NetInfo, Want, OUR_SOCKET};
use crate::session::{messages, pushed, Message, MessageView, PartialView, Session};
use crate::wire::aep::AepView;
use crate::wire::frame::{BodyView, FrameView, PacketView};
use crate::wire::nbp::{NbpFunc, NbpTuple, NbpTupleView};
use crate::wire::zip::{ZipAtpView, ZipView};
use crate::wire::{push_bytes, Addr, Aep, Body, Echo, Encode, Frame, Packet, Zip, ZipAtp, AARP, DDP, DDP_AEP, DDP_ATP, DDP_NBP, DDP_ZIP};

verus! {

/// Ten probes, one fifth of a second apart. Every interval is in milliseconds.
pub const PROBE_TRIES: u32 = 10;

pub const PROBE_INTERVAL: u64 = 200;

/// How many different addresses to try before giving up entirely.
pub const ADDRESS_TRIES: u32 = 5;

/// "Retransmitted several times to insure that a response is received."
pub const NETINFO_TRIES: u32 = 3;

pub const NETINFO_INTERVAL: u64 = 1000;

/// How many times a lookup goes out.
pub const LOOKUP_TRIES: u32 = 3;

pub const LOOKUP_INTERVAL: u64 = 1000;

pub const PING_INTERVAL: u64 = 1000;

pub const ZONE_TRIES: u32 = 3;

pub const ZONE_INTERVAL: u64 = 2000;

/// Far more pages than any plausible zone list has; an unauthenticated
/// "router" should never be able to make us page forever.
pub const MAX_ZONE_PAGES: u32 = 1000;

/// Only the walk of the zone list looks at completed messages, so that every
/// other wait would otherwise accumulate them for the life of the node.
pub const MAX_MESSAGES: usize = 64;

pub struct Node {
    pub mac: MacAddr,
    pub addr: Addr,
    /// None means no router answered: no zone, and `*` in every lookup.
    pub zone: Option<String>,
    pub router: Option<Addr>,
    /// Address-to-MAC mappings gleaned from traffic.
    pub amt: Amt,
    /// ATP reassembly.
    pub session: Session,
    /// True only while Probes for an address go out; suppresses AARP answers
    /// for that interval.
    pub probing: bool,
    pub next_id: u16,
    /// What a lookup has gathered in the current interval.
    pub pending: Vec<NbpTuple>,
    /// Messages completed since the last request looked.
    pub messages: Vec<Message>,
}

/// A node, as data.
pub struct NodeView {
    pub mac: MacAddr,
    pub addr: Addr,
    pub zone: Option<Seq<char>>,
    pub router: Option<Addr>,
    pub amt: Map<Addr, MacAddr>,
    pub session: Seq<PartialView>,
    pub probing: bool,
    pub next_id: u16,
    pub pending: Seq<NbpTupleView>,
    pub messages: Seq<MessageView>,
}

impl DeepView for Node {
    type V = NodeView;

    open spec fn deep_view(&self) -> NodeView {
        NodeView {
            mac: self.mac,
            addr: self.addr,
            zone: self.zone.deep_view(),
            router: self.router,
            amt: self.amt@,
            session: self.session.deep_view(),
            probing: self.probing,
            next_id: self.next_id,
            pending: self.pending.deep_view(),
            messages: self.messages.deep_view(),
        }
    }
}

/// The last `n` of a sequence.
pub open spec fn last_of<A>(s: Seq<A>, n: nat) -> Seq<A> {
    if s.len() > n {
        s.skip(s.len() - n)
    } else {
        s
    }
}

impl NodeView {
    /// The node after a packet. It notes where the sender is, feeds the
    /// reassembly, and remembers what that completed.
    pub open spec fn heard(self, at: u64, p: PacketView) -> NodeView {
        NodeView {
            amt: node::gleaned(self.amt, p),
            session: pushed(self.session, at, p.body).0,
            messages: last_of(
                self.messages + messages(self.session, at, p.body),
                MAX_MESSAGES as nat,
            ),
            ..self
        }
    }

    /// The AARP answer a packet calls for.
    pub open spec fn answer(self, p: PacketView) -> Option<FrameView> {
        match (p.body, node::action_on(p.body, self.addr, self.mac, self.probing)) {
            (BodyView::Aarp(a), AarpAction::AnswerTo(to)) => Some(
                node::frame_of(
                    self.mac,
                    to,
                    AARP,
                    node::response_of(self.addr, self.mac, a.src, to).bytes(),
                ),
            ),
            _ => None,
        }
    }

    /// A datagram of ours on the wire. A broadcast node number always goes to
    /// the multicast address.
    pub open spec fn sent(
        self,
        src_socket: u8,
        dst: Addr,
        dst_socket: u8,
        typ: u8,
        data: Seq<u8>,
    ) -> FrameView {
        node::frame_of(
            self.mac,
            if dst.node == 255 {
                broadcast_mac()
            } else {
                node::mac_of(self.amt, dst)
            },
            DDP,
            node::datagram_of(self.addr, src_socket, dst, dst_socket, typ, data).bytes(),
        )
    }

    /// The clock mixed with the NIC's MAC.
    pub open spec fn seed(self, nanos: u32, attempt: u32) -> u64 {
        let mac = (self.mac.3 * 0x10000 + self.mac.4 * 0x100 + self.mac.5) as u64;
        (nanos as u64) ^ ((mac * 0x100) as u64) ^ ((attempt * 0x1_0000_0000) as u64)
    }

    pub open spec fn with_next_id(self) -> NodeView {
        NodeView { next_id: vstd::wrapping::u16_specs::wrapping_add(self.next_id, 1), ..self }
    }
}

impl Node {
    pub fn new(mac: MacAddr) -> (r: Node)
        ensures
            r.deep_view() == (NodeView {
                mac,
                addr: Addr { net: 0, node: 0 },
                zone: None,
                router: None,
                amt: Map::empty(),
                session: Seq::empty(),
                probing: false,
                next_id: 1,
                pending: Seq::empty(),
                messages: Seq::empty(),
            }),
    {
        let r = Node {
            mac,
            addr: Addr { net: 0, node: 0 },
            zone: None,
            router: None,
            amt: Amt::new(),
            session: Session::new(),
            probing: false,
            next_id: 1,
            pending: Vec::new(),
            messages: Vec::new(),
        };
        assert(r.pending.deep_view() =~= Seq::empty());
        assert(r.messages.deep_view() =~= Seq::empty());
        r
    }

    /// The zone lookups go to: `*` where no router told us one.
    pub fn zone(&self) -> (r: &str)
        ensures
            r@ == (match self.deep_view().zone {
                Some(z) => z,
                None => "*"@,
            }),
    {
        match &self.zone {
            Some(z) => z.as_str(),
            None => "*",
        }
    }

    pub fn router(&self) -> (r: Option<Addr>)
        ensures
            r == self.deep_view().router,
    {
        self.router
    }

    /// Transaction and lookup identifiers, so a late reply to a previous
    /// request cannot be mistaken for an answer to this one.
    pub fn next_id(&mut self) -> (r: u16)
        ensures
            final(self).deep_view() == old(self).deep_view().with_next_id(),
            r == final(self).next_id,
    {
        self.next_id = self.next_id.wrapping_add(1);
        self.next_id
    }

    fn seed(&self, nanos: u32, attempt: u32) -> (r: u64)
        ensures
            r == self.deep_view().seed(nanos, attempt),
    {
        let mac: u64 = self.mac.3 as u64 * 0x10000 + self.mac.4 as u64 * 0x100 + self.mac.5 as u64;
        (nanos as u64) ^ (mac * 0x100) ^ (attempt as u64 * 0x1_0000_0000)
    }

    /// Takes in one packet, and hands back the AARP answer it calls for.
    pub fn heard(&mut self, at: u64, p: &Packet) -> (r: Option<Frame>)
        ensures
            final(self).deep_view() == old(self).deep_view().heard(at, p.deep_view()),
            r.deep_view() == old(self).deep_view().answer(p.deep_view()),
    {
        let ghost v = self.deep_view();
        glean(&mut self.amt, p);
        let mut more = self.session.push(at, p);
        let ghost mv = more.deep_view();
        self.messages.append(&mut more);
        assert(self.messages.deep_view() =~= v.messages + mv);
        let ghost all = self.messages.deep_view();
        let ghost mut gone: int = 0;
        assert(all.skip(0) =~= all);
        while self.messages.len() > MAX_MESSAGES
            invariant
                0 <= gone <= all.len(),
                self.messages.deep_view() == all.skip(gone),
                gone == 0 || all.len() - gone >= MAX_MESSAGES,
                self.deep_view() == (NodeView { messages: all.skip(gone), ..self.deep_view() }),
                self.mac == v.mac,
                self.addr == v.addr,
                self.zone.deep_view() == v.zone,
                self.router == v.router,
                self.amt@ == node::gleaned(v.amt, p.deep_view()),
                self.session.deep_view() == pushed(v.session, at, p.deep_view().body).0,
                self.probing == v.probing,
                self.next_id == v.next_id,
                self.pending.deep_view() == v.pending,
            decreases self.messages@.len(),
        {
            assert(self.messages.deep_view().len() == self.messages@.len());
            self.messages.remove(0);
            proof {
                assert(self.messages.deep_view() =~= all.skip(gone).drop_first());
                assert(all.skip(gone).drop_first() =~= all.skip(gone + 1));
                gone = gone + 1;
            }
        }
        assert(self.messages.deep_view().len() == self.messages@.len());
        assert(all.skip(gone) =~= last_of(all, MAX_MESSAGES as nat));
        match aarp_action(p, self.addr, self.mac, self.probing) {
            AarpAction::AnswerTo(to) => match &p.body {
                Body::Aarp(a) => {
                    let r = aarp_response(self.addr, self.mac, a.src, to);
                    Some(frame(self.mac, to, AARP, r.to_bytes()))
                },
                _ => None,
            },
            _ => None,
        }
    }

    /// Frames were dropped: nothing in flight can be trusted any more.
    pub fn lost(&mut self)
        ensures
            final(self).deep_view() == (NodeView {
                session: Seq::empty(),
                ..old(self).deep_view()
            }),
    {
        self.session.flush();
    }

    /// A datagram of ours on the wire.
    pub fn frame_to(
        &self,
        src_socket: u8,
        dst: Addr,
        dst_socket: u8,
        typ: u8,
        data: Vec<u8>,
    ) -> (r: Frame)
        ensures
            r.deep_view() == self.deep_view().sent(src_socket, dst, dst_socket, typ, data@),
    {
        let d = datagram(self.addr, src_socket, dst, dst_socket, typ, data);
        let to = if dst.node == 255 {
            broadcast_mac()
        } else {
            mac_for(&self.amt, dst)
        };
        frame(self.mac, to, DDP, d.to_bytes())
    }
}

// ------------------------------------------------------------- the address

/// What kind of address is being claimed.
#[derive(Debug, Clone, Copy, PartialEq, Eq)]
pub enum Goal {
    Exact(Addr),
    Range((u16, u16)),
    Any,
}

/// Why no address could be claimed.
#[derive(Debug, Clone, Copy, PartialEq, Eq)]
pub enum ClaimError {
    /// 254 and 255 are reserved on Ethernet. Harmless as a ping target, but
    /// not something to claim as our own address.
    Reserved(u8),
    Taken(Addr),
    NoneFree,
    NoneFreeInRange,
    /// The probe could not be sent.
    Unsent,
}

/// How far the two-step startup has come. In the first two there is a frame to
/// send and an interval to wait.
#[derive(Debug, Clone, Copy, PartialEq, Eq)]
pub enum Phase {
    /// The `tries`th probe for an address, the `attempt`th candidate.
    Probing { goal: Goal, addr: Addr, attempt: u32, tries: u32, settled: bool },
    /// The `tries`th question to the routers what this cable is.
    Asking { tries: u32 },
    /// The address is ours. `outside` is the cable's range where a router says
    /// the address the user asked for is not in it.
    Done { outside: Option<(u16, u16)> },
    Failed(ClaimError),
}

/// The address a seed picks in a range.
pub open spec fn address_in(range: (u16, u16), seed: u64) -> Addr {
    let span = if range.0 <= range.1 {
        range.1 - range.0 + 1
    } else {
        1
    };
    Addr { net: (range.0 + seed as int % span) as u16, node: node::address_of(seed).node }
}

pub open spec fn candidate_for(goal: Goal, seed: u64) -> Addr {
    match goal {
        Goal::Exact(a) => a,
        Goal::Range(r) => address_in(r, seed),
        Goal::Any => node::address_of(seed),
    }
}

impl NodeView {
    /// Begins to claim: the first probe for the first candidate.
    pub open spec fn attempted(self, goal: Goal, attempt: u32, settled: bool, nanos: u32) -> (
        NodeView,
        Phase,
    ) {
        (
            NodeView { probing: true, ..self },
            Phase::Probing {
                goal,
                addr: candidate_for(goal, self.seed(nanos, attempt)),
                attempt,
                tries: 1,
                settled,
            },
        )
    }

    pub open spec fn started(self, want: Want, nanos: u32) -> (NodeView, Phase) {
        match want {
            Want::Addr(a) => if a.node == 254 || a.node == 255 {
                (self, Phase::Failed(ClaimError::Reserved(a.node)))
            } else {
                self.attempted(Goal::Exact(a), 0, false, nanos)
            },
            // A range of one network is the same problem as re-picking inside
            // a cable range.
            Want::Net(net) => self.attempted(Goal::Range((net, net)), 0, false, nanos),
            Want::Discover => self.attempted(Goal::Any, 0, false, nanos),
        }
    }

    /// The candidate is not to be had: the next one, or the end.
    pub open spec fn refused(
        self,
        goal: Goal,
        attempt: u32,
        settled: bool,
        error: ClaimError,
        nanos: u32,
    ) -> (NodeView, Phase) {
        let n = NodeView { probing: false, ..self };
        match goal {
            Goal::Exact(_) => (n, Phase::Failed(error)),
            _ => if attempt + 1 < ADDRESS_TRIES {
                self.attempted(goal, (attempt + 1) as u32, settled, nanos)
            } else if goal == Goal::Any {
                (n, Phase::Failed(ClaimError::NoneFree))
            } else {
                (n, Phase::Failed(ClaimError::NoneFreeInRange))
            },
        }
    }

    /// The interval passed and nobody answered. Ten probes in silence make the
    /// address ours; three questions in silence mean there is no router, and
    /// the provisional address is final.
    pub open spec fn quiet(self, phase: Phase) -> (NodeView, Phase) {
        match phase {
            Phase::Probing { goal, addr, attempt, tries, settled } => if tries < PROBE_TRIES {
                (
                    self,
                    Phase::Probing { goal, addr, attempt, tries: (tries + 1) as u32, settled },
                )
            } else {
                (
                    NodeView { probing: false, addr, ..self },
                    if settled {
                        Phase::Done { outside: None }
                    } else {
                        Phase::Asking { tries: 1 }
                    },
                )
            },
            Phase::Asking { tries } => if tries < NETINFO_TRIES {
                (self, Phase::Asking { tries: (tries + 1) as u32 })
            } else {
                (self, Phase::Done { outside: None })
            },
            _ => (self, phase),
        }
    }

    /// The frame could not be sent.
    pub open spec fn unsent(self, phase: Phase, nanos: u32) -> (NodeView, Phase) {
        match phase {
            Phase::Probing { goal, attempt, settled, .. } => self.refused(
                goal,
                attempt,
                settled,
                ClaimError::Unsent,
                nanos,
            ),
            Phase::Asking { .. } => (self, Phase::Done { outside: None }),
            _ => (self, phase),
        }
    }

    /// What a packet does to the claim, if anything. Someone who holds the
    /// address objects to a probe; a router that answers says what this cable
    /// is.
    pub open spec fn told(self, want: Want, phase: Phase, b: BodyView, nanos: u32) -> Option<
        (NodeView, Phase),
    > {
        match phase {
            Phase::Probing { goal, addr, attempt, settled, .. } => if node::action_on(
                b,
                addr,
                self.mac,
                true,
            ) == AarpAction::Conflict {
                Some(self.refused(goal, attempt, settled, ClaimError::Taken(addr), nanos))
            } else {
                None
            },
            Phase::Asking { .. } => match node::verdict_on(b, self.addr, ""@) {
                None => None,
                Some((verdict, zone, router)) => {
                    let n = NodeView { router: Some(router), zone: Some(zone), ..self };
                    Some(
                        match verdict {
                            NetInfo::Keep => (n, Phase::Done { outside: None }),
                            // Whoever asked for an address specifically keeps
                            // it, wherever the cable's range is.
                            NetInfo::Repick { range } => if want != Want::Discover {
                                (n, Phase::Done { outside: Some(range) })
                            } else {
                                n.attempted(Goal::Range(range), 0, true, nanos)
                            },
                        },
                    )
                },
            },
            _ => None,
        }
    }

    /// The frame a phase sends. ZIP is a socket-6 protocol at both ends.
    pub open spec fn claim_sends(self, phase: Phase) -> Option<FrameView> {
        match phase {
            Phase::Probing { addr, .. } => Some(
                node::frame_of(
                    self.mac,
                    broadcast_mac(),
                    AARP,
                    node::probe_of(addr, self.mac).bytes(),
                ),
            ),
            Phase::Asking { .. } => Some(
                self.sent(
                    6,
                    Addr { net: 0, node: 255 },
                    6,
                    DDP_ZIP,
                    (ZipView::GetNetInfo { zone: ""@ }).bytes(),
                ),
            ),
            _ => None,
        }
    }
}

/// How long a phase waits for an answer, in milliseconds.
pub open spec fn claim_waits(phase: Phase) -> u64 {
    if phase is Probing {
        PROBE_INTERVAL
    } else {
        NETINFO_INTERVAL
    }
}

/// The address a seed picks in a range.
fn pick_in_range(range: (u16, u16), seed: u64) -> (r: Addr)
    ensures
        r == address_in(range, seed),
        1 <= r.node <= 253,
        range.0 <= range.1 ==> range.0 <= r.net <= range.1,
{
    let span: u64 = if range.0 <= range.1 {
        (range.1 - range.0) as u64 + 1
    } else {
        1
    };
    let off: u64 = seed % span;
    Addr { net: range.0 + off as u16, node: pick_address(seed).node }
}

impl Node {
    fn attempt(&mut self, goal: Goal, attempt: u32, settled: bool, nanos: u32) -> (r: Phase)
        ensures
            (final(self).deep_view(), r) == old(self).deep_view().attempted(
                goal,
                attempt,
                settled,
                nanos,
            ),
    {
        let seed = self.seed(nanos, attempt);
        let addr = match goal {
            Goal::Exact(a) => a,
            Goal::Range(r) => pick_in_range(r, seed),
            Goal::Any => pick_address(seed),
        };
        self.probing = true;
        Phase::Probing { goal, addr, attempt, tries: 1, settled }
    }

    fn refuse(
        &mut self,
        goal: Goal,
        attempt: u32,
        settled: bool,
        error: ClaimError,
        nanos: u32,
    ) -> (r: Phase)
        ensures
            (final(self).deep_view(), r) == old(self).deep_view().refused(
                goal,
                attempt,
                settled,
                error,
                nanos,
            ),
    {
        match goal {
            Goal::Exact(_) => {
                self.probing = false;
                Phase::Failed(error)
            },
            _ => {
                if attempt < ADDRESS_TRIES - 1 {
                    return self.attempt(goal, attempt + 1, settled, nanos);
                }
                self.probing = false;
                match goal {
                    Goal::Any => Phase::Failed(ClaimError::NoneFree),
                    _ => Phase::Failed(ClaimError::NoneFreeInRange),
                }
            },
        }
    }

    /// The two-step startup: claims an address, then asks a router what
    /// this cable actually is.
    pub fn claim(&mut self, want: Want, nanos: u32) -> (r: Phase)
        ensures
            (final(self).deep_view(), r) == old(self).deep_view().started(want, nanos),
    {
        match want {
            Want::Addr(a) => if a.node == 254 || a.node == 255 {
                Phase::Failed(ClaimError::Reserved(a.node))
            } else {
                self.attempt(Goal::Exact(a), 0, false, nanos)
            },
            Want::Net(net) => self.attempt(Goal::Range((net, net)), 0, false, nanos),
            Want::Discover => self.attempt(Goal::Any, 0, false, nanos),
        }
    }

    /// The interval passed and nobody answered.
    pub fn claim_quiet(&mut self, phase: Phase) -> (r: Phase)
        ensures
            (final(self).deep_view(), r) == old(self).deep_view().quiet(phase),
    {
        match phase {
            Phase::Probing { goal, addr, attempt, tries, settled } => if tries < PROBE_TRIES {
                Phase::Probing { goal, addr, attempt, tries: tries + 1, settled }
            } else {
                self.probing = false;
                self.addr = addr;
                if settled {
                    Phase::Done { outside: None }
                } else {
                    Phase::Asking { tries: 1 }
                }
            },
            Phase::Asking { tries } => if tries < NETINFO_TRIES {
                Phase::Asking { tries: tries + 1 }
            } else {
                Phase::Done { outside: None }
            },
            _ => phase,
        }
    }

    /// The frame could not be sent.
    pub fn claim_unsent(&mut self, phase: Phase, nanos: u32) -> (r: Phase)
        ensures
            (final(self).deep_view(), r) == old(self).deep_view().unsent(phase, nanos),
    {
        match phase {
            Phase::Probing { goal, attempt, settled, .. } => self.refuse(
                goal,
                attempt,
                settled,
                ClaimError::Unsent,
                nanos,
            ),
            Phase::Asking { .. } => Phase::Done { outside: None },
            _ => phase,
        }
    }

    /// What a packet does to the claim: the next phase, if it ends this one.
    pub fn claim_heard(&mut self, want: Want, phase: Phase, p: &Packet, nanos: u32) -> (r: Option<
        Phase,
    >)
        ensures
            match old(self).deep_view().told(want, phase, p.deep_view().body, nanos) {
                Some((n, next)) => final(self).deep_view() == n && r == Some(next),
                None => final(self).deep_view() == old(self).deep_view() && r is None,
            },
    {
        match phase {
            Phase::Probing { goal, addr, attempt, settled, .. } => match aarp_action(
                p,
                addr,
                self.mac,
                true,
            ) {
                AarpAction::Conflict => Some(
                    self.refuse(goal, attempt, settled, ClaimError::Taken(addr), nanos),
                ),
                _ => None,
            },
            Phase::Asking { .. } => match netinfo_verdict(p, self.addr, "") {
                None => None,
                Some((verdict, zone, router)) => {
                    self.router = Some(router);
                    self.zone = Some(zone);
                    Some(
                        match verdict {
                            NetInfo::Keep => Phase::Done { outside: None },
                            NetInfo::Repick { range } => if want != Want::Discover {
                                Phase::Done { outside: Some(range) }
                            } else {
                                self.attempt(Goal::Range(range), 0, true, nanos)
                            },
                        },
                    )
                },
            },
            _ => None,
        }
    }

    /// The frame a phase sends, and how long to wait for an answer.
    pub fn claim_frame(&self, phase: Phase) -> (r: Option<(Frame, u64)>)
        ensures
            match r {
                Some((f, wait)) => {
                    &&& self.deep_view().claim_sends(phase) == Some(f.deep_view())
                    &&& wait == claim_waits(phase)
                },
                None => self.deep_view().claim_sends(phase) is None,
            },
    {
        match phase {
            Phase::Probing { addr, .. } => {
                let a = probe(addr, self.mac);
                Some((frame(self.mac, broadcast_mac(), AARP, a.to_bytes()), PROBE_INTERVAL))
            },
            Phase::Asking { .. } => {
                let z = Zip::GetNetInfo { zone: fmt::text("") };
                Some(
                    (
                        self.frame_to(6, Addr { net: 0, node: 255 }, 6, DDP_ZIP, z.to_bytes()),
                        NETINFO_INTERVAL,
                    ),
                )
            },
            _ => None,
        }
    }
}

// ---------------------------------------------------------------- the laws

/// How much of a claim is still to come.
pub open spec fn left_of(phase: Phase) -> int {
    match phase {
        Phase::Probing { attempt, tries, settled, .. } => (if settled {
            0int
        } else {
            1000
        }) + (ADDRESS_TRIES - attempt) * 20 + (PROBE_TRIES + 1 - tries),
        Phase::Asking { tries } => 500 + (NETINFO_TRIES + 1 - tries),
        _ => 0,
    }
}

/// A phase a claim can be in.
pub open spec fn sensible(phase: Phase) -> bool {
    match phase {
        Phase::Probing { attempt, tries, .. } => attempt < ADDRESS_TRIES && 1 <= tries
            <= PROBE_TRIES,
        Phase::Asking { tries } => 1 <= tries <= NETINFO_TRIES,
        _ => true,
    }
}

/// Law: a claim ends. Whatever happens -- silence, an answer, a frame that
/// cannot be sent -- brings it nearer to its end, until it has one.
pub proof fn law_a_claim_ends(n: NodeView, want: Want, phase: Phase, b: BodyView, nanos: u32)
    requires
        sensible(phase),
        phase is Probing || phase is Asking,
    ensures
        sensible(n.started(want, nanos).1),
        sensible(n.quiet(phase).1) && 0 <= left_of(n.quiet(phase).1) < left_of(phase),
        sensible(n.unsent(phase, nanos).1) && 0 <= left_of(n.unsent(phase, nanos).1) < left_of(
            phase,
        ),
        n.told(want, phase, b, nanos) matches Some((_, next)) ==> sensible(next) && 0 <= left_of(
            next,
        ) < left_of(phase),
{
}

/// Law: an address becomes ours only when its tenth probe has gone unanswered,
/// and it is the one that was probed.
pub proof fn law_an_address_is_probed_ten_times(n: NodeView, phase: Phase)
    requires
        sensible(phase),
        n.quiet(phase).0.addr != n.addr,
    ensures
        phase matches Phase::Probing { addr, tries, .. } && tries == PROBE_TRIES
            && n.quiet(phase).0.addr == addr,
{
}

/// Law: nothing else makes an address ours.
pub proof fn law_only_silence_grants_an_address(
    n: NodeView,
    want: Want,
    phase: Phase,
    b: BodyView,
    nanos: u32,
)
    ensures
        n.started(want, nanos).0.addr == n.addr,
        n.unsent(phase, nanos).0.addr == n.addr,
        n.told(want, phase, b, nanos) matches Some((m, _)) ==> m.addr == n.addr,
{
}

/// Law: a node answers no AARP while it probes.
pub proof fn law_a_probing_node_answers_nothing(n: NodeView, p: PacketView)
    requires
        n.probing,
    ensures
        n.answer(p) is None,
{
}

// ----------------------------------------------------------------- lookups

/// A lookup under way. `tries` counts the request that is out.
pub struct Lookup {
    pub id: u8,
    pub dst: Addr,
    pub body: Vec<u8>,
    pub tries: u32,
    pub found: Vec<NbpTuple>,
    pub done: bool,
}

/// A lookup, as data.
pub struct LookupView {
    pub id: u8,
    pub dst: Addr,
    pub body: Seq<u8>,
    pub tries: u32,
    pub found: Seq<NbpTupleView>,
    pub done: bool,
}

impl DeepView for Lookup {
    type V = LookupView;

    open spec fn deep_view(&self) -> LookupView {
        LookupView {
            id: self.id,
            dst: self.dst,
            body: self.body@,
            tries: self.tries,
            found: self.found.deep_view(),
            done: self.done,
        }
    }
}

impl NodeView {
    /// A lookup's request. With a router this is a BrRq to its NBP socket,
    /// which the router explodes into zone-wide LkUps for us; without one, a
    /// broadcast to the whole cable reaches everybody who could answer.
    pub open spec fn looking_up(self, object: Seq<char>, typ: Seq<char>, zone: Seq<char>) -> (
        NodeView,
        LookupView,
    ) {
        let n = self.with_next_id();
        let id = (n.next_id % 256) as u8;
        let (func, dst) = match self.router {
            Some(r) => (NbpFunc::BrRq, r),
            None => (NbpFunc::LkUp, Addr { net: 0, node: 255 }),
        };
        (
            n,
            LookupView {
                id,
                dst,
                body: node::lookup_of(func, id, self.addr, OUR_SOCKET, object, typ, zone).bytes(),
                tries: 1,
                found: Seq::empty(),
                done: false,
            },
        )
    }

    /// The frame that asks, to the NBP socket.
    pub open spec fn lookup_sends(self, l: LookupView) -> FrameView {
        self.sent(OUR_SOCKET, l.dst, 2, DDP_NBP, l.body)
    }

    /// The interval has passed: what it brought is kept, and the request goes
    /// out again or the lookup is done.
    pub open spec fn looked_up(self, l: LookupView) -> (NodeView, LookupView) {
        let found = node::merged(l.found, self.pending);
        (
            NodeView { pending: Seq::empty(), ..self },
            if l.tries < LOOKUP_TRIES {
                LookupView { tries: (l.tries + 1) as u32, found, ..l }
            } else {
                LookupView { found: order::listed(found), done: true, ..l }
            },
        )
    }
}

impl Node {
    /// Begins a lookup.
    pub fn lookup(&mut self, object: &str, typ: &str, zone: &str) -> (r: Lookup)
        ensures
            (final(self).deep_view(), r.deep_view()) == old(self).deep_view().looking_up(
                object@,
                typ@,
                zone@,
            ),
    {
        let id = (self.next_id() % 256) as u8;
        let (func, dst) = match self.router {
            Some(r) => (NbpFunc::BrRq, r),
            None => (NbpFunc::LkUp, Addr { net: 0, node: 255 }),
        };
        let body = lookup_request(func, id, self.addr, OUR_SOCKET, object, typ, zone).to_bytes();
        let found: Vec<NbpTuple> = Vec::new();
        assert(found.deep_view() =~= Seq::empty());
        Lookup { id, dst, body, tries: 1, found, done: false }
    }

    /// The frame that asks.
    pub fn lookup_frame(&self, l: &Lookup) -> (r: Frame)
        ensures
            r.deep_view() == self.deep_view().lookup_sends(l.deep_view()),
    {
        let mut body: Vec<u8> = Vec::new();
        push_bytes(&mut body, l.body.as_slice());
        assert(body@ =~= l.body@);
        self.frame_to(OUR_SOCKET, l.dst, 2, DDP_NBP, body)
    }

    /// Gathers the answers in a packet. A lookup has many responders, not one,
    /// so the whole interval is waited out.
    pub fn lookup_heard(&mut self, l: &Lookup, p: &Packet)
        ensures
            final(self).deep_view() == (NodeView {
                pending: node::merged(
                    old(self).deep_view().pending,
                    node::replies_in(p.deep_view().body, l.id),
                ),
                ..old(self).deep_view()
            }),
    {
        merge(&mut self.pending, lookup_replies(p, l.id));
    }

    /// The interval has passed.
    pub fn lookup_quiet(&mut self, l: Lookup) -> (r: Lookup)
        ensures
            (final(self).deep_view(), r.deep_view()) == old(self).deep_view().looked_up(
                l.deep_view(),
            ),
    {
        let ghost pv = self.pending.deep_view();
        let mut batch: Vec<NbpTuple> = Vec::new();
        batch.append(&mut self.pending);
        assert(batch.deep_view() =~= pv);
        assert(self.pending.deep_view() =~= Seq::empty());
        let mut found = l.found;
        let b = batch.as_slice();
        assert(b.deep_view() =~= pv);
        merge(&mut found, b);
        if l.tries < LOOKUP_TRIES {
            Lookup {
                id: l.id,
                dst: l.dst,
                body: l.body,
                tries: l.tries + 1,
                found,
                done: l.done,
            }
        } else {
            Lookup {
                id: l.id,
                dst: l.dst,
                body: l.body,
                tries: l.tries,
                found: order::list(found),
                done: true,
            }
        }
    }
}

// --------------------------------------------------------------- zone lists

#[derive(Debug, Clone, Copy, PartialEq, Eq, Structural)]
pub enum WalkState {
    Asking,
    Complete,
    /// The router stopped answering.
    TimedOut,
}

/// A walk of the router's zone list, one ATP transaction per page. Every
/// request in a series goes to the same router: routers order their lists
/// differently, so mixing them would drop or repeat names.
pub struct ZoneWalk {
    pub router: Addr,
    pub tid: u16,
    pub start: u16,
    pub tries: u32,
    pub page: u32,
    pub zones: Vec<String>,
    pub state: WalkState,
}

/// A walk, as data.
pub struct ZoneWalkView {
    pub router: Addr,
    pub tid: u16,
    pub start: u16,
    pub tries: u32,
    pub page: u32,
    pub zones: Seq<Seq<char>>,
    pub state: WalkState,
}

impl DeepView for ZoneWalk {
    type V = ZoneWalkView;

    open spec fn deep_view(&self) -> ZoneWalkView {
        ZoneWalkView {
            router: self.router,
            tid: self.tid,
            start: self.start,
            tries: self.tries,
            page: self.page,
            zones: self.zones.deep_view(),
            state: self.state,
        }
    }
}

/// The first zone-list reply among messages.
pub open spec fn first_reply(ms: Seq<MessageView>) -> Option<ZipAtpView>
    decreases ms.len(),
{
    if ms.len() == 0 {
        None
    } else {
        match first_reply(ms.drop_last()) {
            Some(z) => Some(z),
            None => match ms.last() {
                MessageView::Zip(z) => if z is Reply {
                    Some(z)
                } else {
                    None
                },
                _ => None,
            },
        }
    }
}

/// Names with more of them. A router may repeat a name while zones are being
/// renamed.
pub open spec fn gathered(zones: Seq<Seq<char>>, more: Seq<Seq<char>>) -> Seq<Seq<char>>
    decreases more.len(),
{
    if more.len() == 0 {
        zones
    } else {
        let z = gathered(zones, more.drop_last());
        if z.contains(more.last()) {
            z
        } else {
            z.push(more.last())
        }
    }
}

impl NodeView {
    pub open spec fn walking(self) -> (NodeView, Option<ZoneWalkView>) {
        match self.router {
            None => (self, None),
            Some(router) => {
                let n = NodeView { messages: Seq::empty(), ..self.with_next_id() };
                (
                    n,
                    Some(
                        ZoneWalkView {
                            router,
                            tid: n.next_id,
                            start: 1,
                            tries: 1,
                            page: 1,
                            zones: Seq::empty(),
                            state: WalkState::Asking,
                        },
                    ),
                )
            },
        }
    }

    /// The frame that asks for a page, to the zone information socket.
    pub open spec fn walk_sends(self, w: ZoneWalkView) -> FrameView {
        self.sent(
            OUR_SOCKET,
            w.router,
            6,
            DDP_ATP,
            node::zone_list_request_of(w.tid, w.start).bytes(),
        )
    }

    /// A page of names: the next one is asked for, or the walk is complete.
    pub open spec fn paged(self, w: ZoneWalkView, reply: ZipAtpView) -> (NodeView, ZoneWalkView) {
        let v = ZoneWalkView { zones: gathered(w.zones, reply->Reply_zones), ..w };
        match node::next_start_of(w.start, reply) {
            Some(next) => if w.page < MAX_ZONE_PAGES {
                let n = self.with_next_id();
                (
                    n,
                    ZoneWalkView {
                        tid: n.next_id,
                        start: next,
                        tries: 1,
                        page: (w.page + 1) as u32,
                        ..v
                    },
                )
            } else {
                (self, ZoneWalkView { state: WalkState::Complete, ..v })
            },
            None => (self, ZoneWalkView { state: WalkState::Complete, ..v }),
        }
    }

    /// A packet while a page is awaited. Only the response that completes our
    /// own request counts; what any other packet completed is forgotten, so
    /// that it cannot be mistaken for this page later on.
    pub open spec fn walked(self, w: ZoneWalkView, b: BodyView) -> (NodeView, ZoneWalkView) {
        let n = NodeView { messages: Seq::empty(), ..self };
        if w.state != WalkState::Asking || !node::answers_page(b, w.router, w.tid) {
            (n, w)
        } else {
            match first_reply(self.messages) {
                Some(reply) => n.paged(w, reply),
                None => (n, w),
            }
        }
    }
}

/// The interval passed without the page.
pub open spec fn walk_waited(w: ZoneWalkView) -> ZoneWalkView {
    if w.state != WalkState::Asking {
        w
    } else if w.tries < ZONE_TRIES {
        ZoneWalkView { tries: (w.tries + 1) as u32, ..w }
    } else {
        ZoneWalkView { state: WalkState::TimedOut, ..w }
    }
}

/// Whether a name is among names.
fn has_text(names: &Vec<String>, name: &String) -> (r: bool)
    ensures
        r == names.deep_view().contains(name@),
{
    let ghost v = names.deep_view();
    let mut i: usize = 0;
    while i < names.len()
        invariant
            i <= names@.len(),
            v == names.deep_view(),
            v.len() == names@.len(),
            forall|j: int| 0 <= j < i ==> #[trigger] v[j] != name@,
        decreases names@.len() - i,
    {
        assert(v[i as int] == names@[i as int]@);
        if names[i] == *name {
            return true;
        }
        i = i + 1;
    }
    false
}

/// Adds the names that are new.
fn gather(zones: &mut Vec<String>, more: &Vec<String>)
    ensures
        final(zones).deep_view() == gathered(old(zones).deep_view(), more.deep_view()),
{
    let ghost z0 = zones.deep_view();
    let ghost ms = more.deep_view();
    assert(ms.take(0) =~= Seq::empty());
    let mut i: usize = 0;
    while i < more.len()
        invariant
            i <= more@.len(),
            ms == more.deep_view(),
            ms.len() == more@.len(),
            zones.deep_view() == gathered(z0, ms.take(i as int)),
        decreases more@.len() - i,
    {
        assert(ms.take(i + 1).drop_last() =~= ms.take(i as int));
        assert(ms.take(i + 1).last() == more@[i as int]@);
        if !has_text(zones, &more[i]) {
            let ghost zv = zones.deep_view();
            let n = more[i].clone();
            let ghost nv = n@;
            zones.push(n);
            assert(zones.deep_view() =~= zv.push(nv));
        }
        i = i + 1;
    }
    assert(ms.take(i as int) =~= ms);
}

/// Takes the first zone-list reply out of messages.
fn take_reply(ms: Vec<Message>) -> (r: Option<ZipAtp>)
    ensures
        r.deep_view() == first_reply(ms.deep_view()),
{
    let ghost all = ms.deep_view();
    let mut left = ms;
    let mut found: Option<ZipAtp> = None;
    let ghost mut done: int = 0;
    assert(all.take(0) =~= Seq::empty());
    assert(left.deep_view() =~= all.skip(0));
    while left.len() > 0
        invariant
            0 <= done <= all.len(),
            left.deep_view() == all.skip(done),
            found.deep_view() == first_reply(all.take(done)),
        decreases left@.len(),
    {
        let ghost before = left.deep_view();
        assert(before.len() == left@.len());
        assert(before[0] == left@[0].deep_view());
        let m = left.remove(0);
        proof {
            assert(left.deep_view() =~= all.skip(done).drop_first());
            assert(all.skip(done).drop_first() =~= all.skip(done + 1));
            assert(all.take(done + 1).drop_last() =~= all.take(done));
            assert(all.take(done + 1).last() == m.deep_view());
            done = done + 1;
        }
        if found.is_none() {
            if let Message::Zip(z) = m {
                let reply = match &z {
                    ZipAtp::Reply { .. } => true,
                    _ => false,
                };
                if reply {
                    found = Some(z);
                }
            }
        }
    }
    assert(left.deep_view().len() == 0);
    assert(all.take(done) =~= all);
    found
}

impl Node {
    /// Begins to walk the router's zone list; there is none without a router.
    pub fn zone_list(&mut self) -> (r: Option<ZoneWalk>)
        ensures
            (final(self).deep_view(), r.deep_view()) == old(self).deep_view().walking(),
    {
        match self.router {
            None => None,
            Some(router) => {
                let tid = self.next_id();
                self.messages = Vec::new();
                assert(self.messages.deep_view() =~= Seq::empty());
                let zones: Vec<String> = Vec::new();
                assert(zones.deep_view() =~= Seq::empty());
                Some(
                    ZoneWalk {
                        router,
                        tid,
                        start: 1,
                        tries: 1,
                        page: 1,
                        zones,
                        state: WalkState::Asking,
                    },
                )
            },
        }
    }

    /// The frame that asks for a page. It goes out from our dynamic socket:
    /// ATP replies go back to whatever socket asked.
    pub fn walk_frame(&self, w: &ZoneWalk) -> (r: Frame)
        ensures
            r.deep_view() == self.deep_view().walk_sends(w.deep_view()),
    {
        let a = zone_list_request(w.tid, w.start);
        self.frame_to(OUR_SOCKET, w.router, 6, DDP_ATP, a.to_bytes())
    }

    fn page(&mut self, w: ZoneWalk, reply: &ZipAtp) -> (r: ZoneWalk)
        requires
            reply is Reply,
        ensures
            (final(self).deep_view(), r.deep_view()) == old(self).deep_view().paged(
                w.deep_view(),
                reply.deep_view(),
            ),
    {
        let mut zones = w.zones;
        if let ZipAtp::Reply { zones: names, .. } = reply {
            gather(&mut zones, names);
        }
        match next_start(w.start, reply) {
            Some(next) => if w.page < MAX_ZONE_PAGES {
                let tid = self.next_id();
                return ZoneWalk {
                    router: w.router,
                    tid,
                    start: next,
                    tries: 1,
                    page: w.page + 1,
                    zones,
                    state: w.state,
                };
            },
            None => {},
        }
        ZoneWalk {
            router: w.router,
            tid: w.tid,
            start: w.start,
            tries: w.tries,
            page: w.page,
            zones,
            state: WalkState::Complete,
        }
    }

    /// A packet while a page is awaited, once it has been taken in.
    pub fn walk_heard(&mut self, w: ZoneWalk, p: &Packet) -> (r: ZoneWalk)
        ensures
            (final(self).deep_view(), r.deep_view()) == old(self).deep_view().walked(
                w.deep_view(),
                p.deep_view().body,
            ),
    {
        let ghost mv = self.messages.deep_view();
        let mut ms: Vec<Message> = Vec::new();
        ms.append(&mut self.messages);
        assert(ms.deep_view() =~= mv);
        assert(self.messages.deep_view() =~= Seq::empty());
        if w.state != WalkState::Asking || !zone_reply_matches(p, w.router, w.tid) {
            return w;
        }
        proof {
            lemma_first_reply(mv);
        }
        match take_reply(ms) {
            Some(reply) => self.page(w, &reply),
            None => w,
        }
    }

    /// The interval passed without the page.
    pub fn walk_quiet(&self, w: ZoneWalk) -> (r: ZoneWalk)
        ensures
            r.deep_view() == walk_waited(w.deep_view()),
    {
        let mut w = w;
        if w.state == WalkState::Asking {
            if w.tries < ZONE_TRIES {
                w.tries = w.tries + 1;
            } else {
                w.state = WalkState::TimedOut;
            }
        }
        w
    }
}

proof fn lemma_first_reply(ms: Seq<MessageView>)
    ensures
        first_reply(ms) matches Some(z) ==> z is Reply,
    decreases ms.len(),
{
    if ms.len() > 0 {
        lemma_first_reply(ms.drop_last());
    }
}

// --------------------------------------------------------------------- pings

/// A run of probes, one to an interval.
#[derive(Debug, Clone, Copy, PartialEq, Eq, Structural)]
pub struct Ping {
    pub target: Addr,
    /// Distinguishes our echoes from any other pinger's on the same cable.
    pub magic: u32,
    /// How many probes there are to be.
    pub count: u16,
    /// The probe that is out, counted from 0.
    pub seq: u32,
    /// Whether it has been answered.
    pub answered: bool,
    /// Whether any has been.
    pub any: bool,
}

impl Ping {
    /// Whether a probe is out, or about to be.
    pub open spec fn running(self) -> bool {
        self.seq < self.count
    }

    /// Who answers the probe that is out. A probe is answered once.
    pub open spec fn answer_in(self, b: BodyView) -> Option<Addr> {
        match node::echo_of(b, self.magic) {
            Some((from, s)) => if self.running() && !self.answered && s == self.seq {
                Some(from)
            } else {
                None
            },
            None => None,
        }
    }

    /// The run after a packet.
    pub open spec fn told(self, b: BodyView) -> Ping {
        if self.answer_in(b) is Some {
            Ping { answered: true, any: true, ..self }
        } else {
            self
        }
    }

    /// The run once the interval is over, whether it was answered early or not
    /// at all.
    pub open spec fn waited(self) -> Ping {
        if self.running() {
            Ping { seq: (self.seq + 1) as u32, answered: false, ..self }
        } else {
            self
        }
    }

    /// What is said of an interval that brought no answer.
    pub open spec fn timeout_text(self) -> Seq<char> {
        "timeout seq="@ + fmt::dec(self.seq as nat)
    }

    /// Takes in a packet, and hands back who answered the probe that is out.
    pub fn heard(&mut self, p: &Packet) -> (r: Option<Addr>)
        ensures
            r == old(self).answer_in(p.deep_view().body),
            *final(self) == old(self).told(p.deep_view().body),
    {
        if self.seq >= self.count as u32 || self.answered {
            return None;
        }
        let from = ping_answer(p, self.magic, self.seq);
        if from.is_some() {
            self.answered = true;
            self.any = true;
        }
        from
    }

    /// The interval is over: what is to be said of it, if nothing answered.
    pub fn quiet(&mut self) -> (r: Option<String>)
        ensures
            *final(self) == old(self).waited(),
            match r {
                Some(s) => old(self).running() && !old(self).answered && s@ == old(
                    self,
                ).timeout_text(),
                None => !old(self).running() || old(self).answered,
            },
    {
        if self.seq >= self.count as u32 {
            return None;
        }
        let line = if self.answered {
            None
        } else {
            let mut s = fmt::text("timeout seq=");
            fmt::push_dec(&mut s, self.seq as u64);
            Some(s)
        };
        self.seq = self.seq + 1;
        self.answered = false;
        line
    }
}

impl NodeView {
    /// The frame of the probe that is out, to the echo socket.
    pub open spec fn ping_sends(self, ping: Ping) -> FrameView {
        self.sent(
            OUR_SOCKET,
            ping.target,
            4,
            DDP_AEP,
            (AepView {
                func: Echo::Request,
                data: node::be32(ping.magic) + node::be32(ping.seq),
            }).bytes(),
        )
    }
}

impl Node {
    /// Begins a run of probes.
    pub fn ping(&self, target: Addr, count: u16, nanos: u32) -> (r: Ping)
        ensures
            r == (Ping {
                target,
                magic: (self.deep_view().seed(nanos, 0) % 0x1_0000_0000) as u32,
                count,
                seq: 0,
                answered: false,
                any: false,
            }),
    {
        let magic: u32 = (self.seed(nanos, 0) % 0x1_0000_0000) as u32;
        Ping { target, magic, count, seq: 0, answered: false, any: false }
    }

    /// The frame of the next probe, while there is one.
    pub fn ping_frame(&self, ping: &Ping) -> (r: Option<Frame>)
        ensures
            match r {
                Some(f) => ping.running() && f.deep_view() == self.deep_view().ping_sends(*ping),
                None => !ping.running(),
            },
    {
        if ping.seq >= ping.count as u32 {
            return None;
        }
        let a = Aep { func: Echo::Request, data: node::echo_data(ping.magic, ping.seq) };
        Some(self.frame_to(OUR_SOCKET, ping.target, 4, DDP_AEP, a.to_bytes()))
    }
}

/// Who answered the probe `seq`.
pub fn ping_answer(p: &Packet, magic: u32, seq: u32) -> (r: Option<Addr>)
    ensures
        r == (match node::echo_of(p.deep_view().body, magic) {
            Some((from, s)) => if s == seq {
                Some(from)
            } else {
                None
            },
            None => None,
        }),
{
    match node::echo_match(p, magic) {
        Some((from, s)) => if s == seq {
            Some(from)
        } else {
            None
        },
        None => None,
    }
}

/// Law: a run of probes ends: every interval brings it nearer to its end, and
/// nothing that is heard takes it away from it.
pub proof fn law_a_ping_ends(p: Ping, b: BodyView)
    requires
        p.running(),
    ensures
        p.waited().seq == p.seq + 1,
        p.waited().count == p.count,
        p.told(b).seq == p.seq,
        p.told(b).count == p.count,
{
}

/// Law: a probe is answered once, and only a run that has had an answer says
/// that it had one.
pub proof fn law_a_probe_is_answered_once(p: Ping, b: BodyView, c: BodyView)
    ensures
        p.answer_in(b) is Some ==> p.told(b).any && p.told(b).answer_in(c) is None,
        p.answer_in(b) is None ==> p.told(b) == p,
        p.waited().any == p.any,
{
}

// ---------------------------------------------------------------- more laws

/// How much of a walk is still to come.
pub open spec fn walk_left(w: ZoneWalkView) -> int {
    if w.state == WalkState::Asking {
        (MAX_ZONE_PAGES - w.page) * 10 + (ZONE_TRIES + 1 - w.tries)
    } else {
        0
    }
}

/// A walk that can be.
pub open spec fn walkable(w: ZoneWalkView) -> bool {
    1 <= w.page <= MAX_ZONE_PAGES && 1 <= w.tries <= ZONE_TRIES
}

/// Law: a walk ends, whatever a router sends: every page and every silence
/// brings it nearer to its end.
pub proof fn law_a_walk_ends(n: NodeView, w: ZoneWalkView, b: BodyView)
    requires
        walkable(w),
        w.state == WalkState::Asking,
    ensures
        n.walking().1 matches Some(v) ==> walkable(v),
        walkable(walk_waited(w)) && 0 <= walk_left(walk_waited(w)) < walk_left(w),
        walkable(n.walked(w, b).1),
        n.walked(w, b).1 == w || 0 <= walk_left(n.walked(w, b).1) < walk_left(w),
{
}

/// Law: a late reply to an earlier request cannot be mistaken for the page that
/// is awaited. What a walk takes a page from is completed by the very packet
/// that answers it, and every other packet leaves the walk as it was.
pub proof fn law_a_late_reply_is_not_mistaken(n: NodeView, w: ZoneWalkView, at: u64, p: PacketView)
    requires
        n.messages.len() == 0,
    ensures
        ({
            let (m, v) = n.heard(at, p).walked(w, p.body);
            &&& m.messages.len() == 0
            &&& !node::answers_page(p.body, w.router, w.tid) ==> v == w
            &&& v.zones == w.zones || (first_reply(messages(n.session, at, p.body)) matches Some(z)
                && v.zones == gathered(w.zones, z->Reply_zones))
        }),
        n.walking().1 is Some ==> n.walking().0.messages.len() == 0,
{
    let all = messages(n.session, at, p.body);
    assert(n.messages + all =~= all);
}

/// Law: a zone is listed once, however often the router names it, and none is
/// dropped.
pub proof fn law_zones_are_listed_once(zones: Seq<Seq<char>>, more: Seq<Seq<char>>)
    requires
        zones.no_duplicates(),
    ensures
        gathered(zones, more).no_duplicates(),
        forall|i: int| 0 <= i < zones.len() ==> gathered(zones, more).contains(#[trigger] zones[i]),
        forall|i: int| 0 <= i < more.len() ==> gathered(zones, more).contains(#[trigger] more[i]),
    decreases more.len(),
{
    if more.len() > 0 {
        let m = more.drop_last();
        let z = gathered(zones, m);
        let w = gathered(zones, more);
        law_zones_are_listed_once(zones, m);
        assert forall|x: Seq<char>| #[trigger] z.contains(x) implies w.contains(x) by {
            let k = choose|k: int| 0 <= k < z.len() && z[k] == x;
            assert(w[k] == x);
        }
        if !z.contains(more.last()) {
            assert(w[z.len() as int] == more.last());
        }
        assert forall|i: int| 0 <= i < more.len() implies w.contains(#[trigger] more[i]) by {
            if i < m.len() {
                assert(m[i] == more[i]);
                assert(z.contains(m[i]));
            }
        }
        assert forall|i: int| 0 <= i < zones.len() implies w.contains(#[trigger] zones[i]) by {
            assert(z.contains(zones[i]));
        }
    }
}

} // verus!
