//! Repeats AppleTalk between the EtherTalk cable and a LocalTalk link, as one
//! network with one node-ID space.
//!
//! Not a router: no RTMP, no ZIP, no hop counting. What stands here is the
//! table of which side each node lives on: how it is learned, doubted, asked
//! about and forgotten; what is repeated stands in `repeat`. All of it is pure
//! -- it takes what arrived and the time in milliseconds, and returns what to
//! send.

use std::collections::HashMap;

use vstd::prelude::*;
use vstd::string::*;

use crate::addr::MacAddr;
use crate::amt::Amt;
use crate::fmt;
use crate::node;
use crate::node::{aarp_request, aarp_response, broadcast_mac, frame, probe};
use crate::router::aurp::{elapsed, since};
use crate::wire::frame::FrameView;
use crate::wire::llap::LlapView;
use crate::wire::{Addr, Encode, Frame, Llap, AARP, LLAP_ACK, LLAP_ENQ};

verus! {

/// How long a node stays believed-in without being heard from: confirm on
/// traffic, delete on expiry, re-resolve on demand -- so there is no refresh
/// timer here, just expiry.
pub const ENTRY_TTL: u64 = 30000;

/// How long a cross-side query waits for its answer. Matches how long a
/// requester on either side keeps retrying, so a debt is never settled after
/// the creditor gave up.
pub const QUERY_TIMEOUT: u64 = 2000;

/// Which link a node lives on. `Ether` carries the MAC because that is what
/// makes the entry useful for sending; `Local` needs no address beyond the
/// node ID the map is keyed by.
#[derive(Debug, Clone, Copy, PartialEq, Eq, Structural)]
pub enum Side {
    Ether(MacAddr),
    Local,
}

/// Which link to put a question to. Distinct from `Side` because a question
/// carries no MAC -- that is exactly what it is asking for.
#[derive(Debug, Clone, Copy, PartialEq, Eq, Structural)]
pub enum Ask {
    Ether,
    Local,
}

/// What is owed to whom when a query is answered.
#[derive(Debug, Clone, Copy, PartialEq, Eq, Structural)]
pub enum Owed {
    /// A LocalTalk node is claiming this ID; ACK it if Ethernet holds it.
    LocalAck,
    /// An Ethernet node is asking after this ID; answer for it if LocalTalk
    /// holds it.
    EtherResponse { to: Addr, to_mac: MacAddr },
    /// Nobody is waiting; the answer only updates the table.
    Nothing,
}

#[derive(Debug, Clone, Copy)]
pub struct Entry {
    pub side: Side,
    pub confirmed: u64,
    /// Set when the node turned up on the other side, or when both sides
    /// claimed it. A doubted entry is not live: nothing is forwarded to it and
    /// no AARP is answered on its behalf.
    pub doubted: bool,
}

#[derive(Debug, Clone, Copy)]
pub struct Pending {
    pub asked: u64,
    pub owed: Owed,
    /// Set when this query exists to settle a contradiction. If it goes
    /// unanswered, the node moved to this side.
    pub moved_to: Option<Side>,
}

/// Something to do.
#[derive(Debug, PartialEq, Eq)]
pub enum Action {
    ToEther(Frame),
    ToLocal(Llap),
    /// Something an operator needs to know. Rare by construction.
    Report(String),
}

/// Something to do, as data.
pub enum ActionView {
    ToEther(FrameView),
    ToLocal(LlapView),
    Report(Seq<char>),
}

impl DeepView for Action {
    type V = ActionView;

    open spec fn deep_view(&self) -> ActionView {
        match self {
            Action::ToEther(f) => ActionView::ToEther(f.deep_view()),
            Action::ToLocal(l) => ActionView::ToLocal(l.deep_view()),
            Action::Report(s) => ActionView::Report(s@),
        }
    }
}

impl Side {
    /// Same link, whatever MAC. Two `Ether` values with different MACs are the
    /// same side -- a node changing NIC has not crossed the bridge.
    pub open spec fn same_link(self, other: Side) -> bool {
        self is Ether == other is Ether
    }

    pub open spec fn text(self) -> Seq<char> {
        match self {
            Side::Ether(_) => "Ethernet"@,
            Side::Local => "LocalTalk"@,
        }
    }

    pub open spec fn spec_link(self) -> Ask {
        match self {
            Side::Ether(_) => Ask::Ether,
            Side::Local => Ask::Local,
        }
    }

    fn same_as(self, other: Side) -> (r: bool)
        ensures
            r == self.same_link(other),
    {
        match (self, other) {
            (Side::Ether(_), Side::Ether(_)) | (Side::Local, Side::Local) => true,
            _ => false,
        }
    }

    fn name(self) -> (r: &'static str)
        ensures
            r@ == self.text(),
    {
        match self {
            Side::Ether(_) => "Ethernet",
            Side::Local => "LocalTalk",
        }
    }

    fn link(self) -> (r: Ask)
        ensures
            r == self.spec_link(),
    {
        match self {
            Side::Ether(_) => Ask::Ether,
            Side::Local => Ask::Local,
        }
    }
}

pub struct Bridge {
    pub addr: Addr,
    pub mac: MacAddr,
    /// Which side each node ID on our own net lives on.
    pub nodes: HashMap<u8, Entry>,
    /// Gleaned address-to-MAC for addresses on *other* networks -- the router
    /// and everything beyond it. On-net MACs come from `nodes`.
    pub amt: Amt,
    pub pending: HashMap<u8, Pending>,
}

/// A bridge, as data.
pub struct BridgeView {
    pub addr: Addr,
    pub mac: MacAddr,
    pub nodes: Map<u8, Entry>,
    pub amt: Map<Addr, MacAddr>,
    pub pending: Map<u8, Pending>,
}

impl DeepView for Bridge {
    type V = BridgeView;

    open spec fn deep_view(&self) -> BridgeView {
        BridgeView {
            addr: self.addr,
            mac: self.mac,
            nodes: self.nodes@,
            amt: self.amt@,
            pending: self.pending@,
        }
    }
}

/// Everything already gleaned on our own net is an Ethernet resident: it was
/// heard over ELAP, which is proof enough to start with.
pub open spec fn residents(addr: Addr, amt: Map<Addr, MacAddr>, now: u64) -> Map<u8, Entry> {
    Map::new(
        |n: u8| n != addr.node && amt.contains_key(Addr { net: addr.net, node: n }),
        |n: u8|
            Entry {
                side: Side::Ether(amt[Addr { net: addr.net, node: n }]),
                confirmed: now,
                doubted: false,
            },
    )
}

impl BridgeView {
    /// The side a node is known to be on, or None when we do not know, do not
    /// trust what we have, or it has aged out.
    pub open spec fn live(self, node: u8) -> Option<Side> {
        if self.nodes.contains_key(node) && !self.nodes[node].doubted {
            Some(self.nodes[node].side)
        } else {
            None
        }
    }

    /// Whether the table says, or merely suspects, that a node is not on
    /// LocalTalk.
    pub open spec fn elsewhere(self, node: u8) -> bool {
        self.nodes.contains_key(node) && (self.nodes[node].doubted || self.nodes[node].side is Ether)
    }

    /// The question that goes to a link. A Probe when someone is claiming the
    /// ID, because a node suppresses AARP answers while it is itself probing
    /// and a Request would draw silence from one mid-claim; a Request
    /// otherwise, which claims nothing. An ENQ we never act on is inert: only
    /// receipt of an ACK makes a node give up an ID.
    pub open spec fn question(self, node: u8, link: Ask, owed: Owed) -> ActionView {
        let target = Addr { net: self.addr.net, node };
        match link {
            Ask::Ether => ActionView::ToEther(
                node::frame_of(
                    self.mac,
                    broadcast_mac(),
                    AARP,
                    if owed == Owed::LocalAck {
                        node::probe_of(target, self.mac).bytes()
                    } else {
                        node::request_of(self.addr, self.mac, target).bytes()
                    },
                ),
            ),
            Ask::Local => ActionView::ToLocal(
                LlapView { dst: node, src: node, typ: LLAP_ENQ, data: Seq::empty() },
            ),
        }
    }

    /// Puts a question to one link. What is pending doubles as the rate limit:
    /// a second query while one is in flight is suppressed.
    pub open spec fn asked(
        self,
        node: u8,
        link: Ask,
        owed: Owed,
        moved_to: Option<Side>,
        now: u64,
    ) -> (BridgeView, Seq<ActionView>) {
        if self.pending.contains_key(node) {
            (self, Seq::empty())
        } else {
            (
                BridgeView {
                    pending: self.pending.insert(node, Pending { asked: now, owed, moved_to }),
                    ..self
                },
                seq![self.question(node, link, owed)],
            )
        }
    }

    pub open spec fn with_entry(self, node: u8, e: Entry) -> BridgeView {
        BridgeView { nodes: self.nodes.insert(node, e), ..self }
    }

    /// A node heard from on a side, and what that means. Node 0 is not allowed
    /// and 255 is the broadcast ID; neither is a node. Our own ID is ours and
    /// needs no entry.
    pub open spec fn confirmed(self, node: u8, side: Side, now: u64) -> (
        BridgeView,
        Seq<ActionView>,
    ) {
        let fresh = Entry { side, confirmed: now, doubted: false };
        if node == 0 || node == 255 || node == self.addr.node {
            (self, Seq::empty())
        } else if !self.nodes.contains_key(node) {
            (self.with_entry(node, fresh), Seq::empty())
        } else {
            let e = self.nodes[node];
            if !e.side.same_link(side) {
                // Heard on the side we did not expect. A move and a reflection
                // are identical in the frame, so believe neither and ask the
                // side we believed; silence from it is the answer.
                if e.doubted {
                    (self, Seq::empty())
                } else {
                    self.with_entry(
                        node,
                        Entry { side: e.side, confirmed: now, doubted: true },
                    ).asked(node, e.side.spec_link(), Owed::Nothing, Some(side), now)
                }
            } else if self.pending.contains_key(node) && self.pending[node].moved_to is Some {
                // The believed side spoke, which answers the move-check: both
                // sides really do hold this ID.
                (
                    BridgeView { pending: self.pending.remove(node), ..self },
                    seq![
                        ActionView::Report(
                            "node "@ + fmt::dec(node as nat)
                                + " answered on both sides — a duplicate ID, or a second bridge on this pair"@,
                        ),
                    ],
                )
            } else if e.doubted {
                // A contested entry is deliberately not refreshed: letting
                // traffic keep it alive would make a stale contest permanent.
                (self, Seq::empty())
            } else {
                (self.with_entry(node, fresh), Seq::empty())
            }
        }
    }

    /// Pays whatever was owed on a node now that a side has answered. A
    /// move-check is settled where the answer is confirmed, which is the only
    /// place that knows whether it contradicts the table.
    pub open spec fn settled(self, node: u8, answered: Side) -> (BridgeView, Seq<ActionView>) {
        let paid = BridgeView { pending: self.pending.remove(node), ..self };
        if !self.pending.contains_key(node) || self.pending[node].moved_to is Some {
            (self, Seq::empty())
        } else {
            match self.pending[node].owed {
                // Ethernet holds it, so tell the claimant it is taken. Both
                // node bytes carry the ID, as an ACK always does.
                Owed::LocalAck => if answered is Ether {
                    (
                        paid,
                        seq![
                            ActionView::ToLocal(
                                LlapView {
                                    dst: node,
                                    src: node,
                                    typ: LLAP_ACK,
                                    data: Seq::empty(),
                                },
                            ),
                        ],
                    )
                } else {
                    (self, Seq::empty())
                },
                Owed::EtherResponse { to, to_mac } => if answered == Side::Local {
                    // Never proxy against evidence: if Ethernet answered for
                    // the ID while the question was out, answering as the
                    // LocalTalk node would hijack an Ethernet node's address.
                    // And nothing is answered for an ID that is in doubt.
                    if self.elsewhere(node) {
                        (paid, Seq::empty())
                    } else {
                        (
                            paid,
                            seq![
                                ActionView::ToEther(
                                    node::frame_of(
                                        self.mac,
                                        to_mac,
                                        AARP,
                                        node::response_of(
                                            Addr { net: self.addr.net, node },
                                            self.mac,
                                            to,
                                            to_mac,
                                        ).bytes(),
                                    ),
                                ),
                            ],
                        )
                    }
                } else {
                    (self, Seq::empty())
                },
                Owed::Nothing => (self, Seq::empty()),
            }
        }
    }

    /// Whether a query has waited long enough.
    pub open spec fn overdue(self, node: u8, now: u64) -> bool {
        self.pending.contains_key(node) && since(now, self.pending[node].asked) >= QUERY_TIMEOUT
    }

    /// Whether a query that nobody answered says that a node has moved.
    pub open spec fn has_moved(self, node: u8, now: u64) -> bool {
        self.overdue(node, now) && self.pending[node].moved_to is Some
    }

    /// The reports of the first `n` node IDs that have moved.
    pub open spec fn moves(self, n: nat, now: u64) -> Seq<ActionView>
        decreases n,
    {
        if n == 0 {
            Seq::empty()
        } else {
            let k = (n - 1) as u8;
            let s = self.moves((n - 1) as nat, now);
            if self.has_moved(k, now) {
                s.push(
                    ActionView::Report(
                        "node "@ + fmt::dec(k as nat) + " moved to "@
                            + self.pending[k].moved_to->0.text(),
                    ),
                )
            } else {
                s
            }
        }
    }

    /// Entries nobody has confirmed lately dropped, and queries nobody answered
    /// resolved. An unanswered move-check *is* the answer: the node moved.
    pub open spec fn expired(self, now: u64) -> BridgeView {
        BridgeView {
            nodes: Map::new(
                |k: u8|
                    self.has_moved(k, now) || (self.nodes.contains_key(k) && since(
                        now,
                        self.nodes[k].confirmed,
                    ) < ENTRY_TTL),
                |k: u8|
                    if self.has_moved(k, now) {
                        Entry {
                            side: self.pending[k].moved_to->0,
                            confirmed: now,
                            doubted: false,
                        }
                    } else {
                        self.nodes[k]
                    },
            ),
            pending: Map::new(
                |k: u8| self.pending.contains_key(k) && !self.overdue(k, now),
                |k: u8| self.pending[k],
            ),
            ..self
        }
    }
}

/// One action.
pub(crate) fn only(a: Action) -> (r: Vec<Action>)
    ensures
        r.deep_view() == seq![a.deep_view()],
{
    let ghost av = a.deep_view();
    let mut out: Vec<Action> = Vec::new();
    out.push(a);
    assert(out.deep_view() =~= seq![av]);
    out
}

/// No action.
pub(crate) fn nothing() -> (r: Vec<Action>)
    ensures
        r.deep_view() == Seq::<ActionView>::empty(),
{
    let out: Vec<Action> = Vec::new();
    assert(out.deep_view() =~= Seq::empty());
    out
}

impl Bridge {
    /// A bridge that starts from what its node already gleaned.
    pub fn new(addr: Addr, mac: MacAddr, amt: Amt, now: u64) -> (r: Bridge)
        ensures
            r.deep_view() == (BridgeView {
                addr,
                mac,
                nodes: residents(addr, amt@, now),
                amt: amt@,
                pending: Map::empty(),
            }),
    {
        let ghost want = residents(addr, amt@, now);
        let mut nodes: HashMap<u8, Entry> = HashMap::new();
        let mut n: u16 = 0;
        while n < 256
            invariant
                n <= 256,
                want == residents(addr, amt@, now),
                forall|k: u8| #[trigger]
                    nodes@.contains_key(k) <==> k < n && want.contains_key(k),
                forall|k: u8| #[trigger] nodes@.contains_key(k) ==> nodes@[k] == want[k],
            decreases 256 - n,
        {
            let node = n as u8;
            if node != addr.node {
                if let Some(m) = amt.get(&Addr { net: addr.net, node }) {
                    nodes.insert(
                        node,
                        Entry { side: Side::Ether(m), confirmed: now, doubted: false },
                    );
                }
            }
            n = n + 1;
        }
        assert(nodes@ =~= want);
        Bridge { addr, mac, nodes, amt, pending: HashMap::new() }
    }

    /// The side a node is known to be on.
    pub fn live(&self, node: u8) -> (r: Option<Side>)
        ensures
            r == self.deep_view().live(node),
    {
        match self.nodes.get(&node) {
            Some(e) => if e.doubted {
                None
            } else {
                Some(e.side)
            },
            None => None,
        }
    }

    /// Records that `node` was heard from on `side`, and says what that means.
    pub fn confirm(&mut self, node: u8, side: Side, now: u64) -> (r: Vec<Action>)
        ensures
            (final(self).deep_view(), r.deep_view()) == old(self).deep_view().confirmed(
                node,
                side,
                now,
            ),
    {
        if node == 0 || node == 255 || node == self.addr.node {
            return nothing();
        }
        let (believed, doubted) = match self.nodes.get(&node) {
            Some(e) => (e.side, e.doubted),
            None => {
                self.nodes.insert(node, Entry { side, confirmed: now, doubted: false });
                return nothing();
            },
        };
        if !believed.same_as(side) {
            if doubted {
                return nothing();
            }
            self.nodes.insert(node, Entry { side: believed, confirmed: now, doubted: true });
            return self.ask(node, believed.link(), Owed::Nothing, Some(side), now);
        }
        let checking = match self.pending.get(&node) {
            Some(q) => q.moved_to.is_some(),
            None => false,
        };
        if checking {
            self.pending.remove(&node);
            let mut s = fmt::text("node ");
            fmt::push_dec(&mut s, node as u64);
            fmt::push_text(
                &mut s,
                " answered on both sides — a duplicate ID, or a second bridge on this pair",
            );
            return only(Action::Report(s));
        }
        if doubted {
            return nothing();
        }
        self.nodes.insert(node, Entry { side, confirmed: now, doubted: false });
        nothing()
    }

    /// Puts a question to one link.
    pub fn ask(
        &mut self,
        node: u8,
        link: Ask,
        owed: Owed,
        moved_to: Option<Side>,
        now: u64,
    ) -> (r: Vec<Action>)
        ensures
            (final(self).deep_view(), r.deep_view()) == old(self).deep_view().asked(
                node,
                link,
                owed,
                moved_to,
                now,
            ),
    {
        if self.pending.contains_key(&node) {
            return nothing();
        }
        self.pending.insert(node, Pending { asked: now, owed, moved_to });
        let target = Addr { net: self.addr.net, node };
        match link {
            Ask::Ether => {
                let a = match owed {
                    Owed::LocalAck => probe(target, self.mac),
                    _ => aarp_request(self.addr, self.mac, target),
                };
                only(Action::ToEther(frame(self.mac, broadcast_mac(), AARP, a.to_bytes())))
            },
            Ask::Local => only(Action::ToLocal(Llap::control(node, node, LLAP_ENQ))),
        }
    }

    /// Pays whatever was owed on `node` now that a side has answered.
    pub fn settle(&mut self, node: u8, answered: Side, _now: u64) -> (r: Vec<Action>)
        ensures
            (final(self).deep_view(), r.deep_view()) == old(self).deep_view().settled(
                node,
                answered,
            ),
    {
        let q = match self.pending.get(&node) {
            Some(q) => *q,
            None => {
                return nothing();
            },
        };
        if q.moved_to.is_some() {
            return nothing();
        }
        match q.owed {
            Owed::LocalAck => match answered {
                Side::Ether(_) => {
                    self.pending.remove(&node);
                    only(Action::ToLocal(Llap::control(node, node, LLAP_ACK)))
                },
                Side::Local => nothing(),
            },
            Owed::EtherResponse { to, to_mac } => match answered {
                Side::Local => {
                    self.pending.remove(&node);
                    let elsewhere = match self.nodes.get(&node) {
                        Some(e) => e.doubted || matches!(e.side, Side::Ether(_)),
                        None => false,
                    };
                    if elsewhere {
                        return nothing();
                    }
                    // Answer as the LocalTalk node, giving our own MAC -- which
                    // is exactly where its traffic should go.
                    let src = Addr { net: self.addr.net, node };
                    let a = aarp_response(src, self.mac, to, to_mac);
                    only(Action::ToEther(frame(self.mac, to_mac, AARP, a.to_bytes())))
                },
                Side::Ether(_) => nothing(),
            },
            Owed::Nothing => nothing(),
        }
    }

    /// Drops entries nobody has confirmed lately and resolves queries nobody
    /// answered.
    pub fn expire(&mut self, now: u64) -> (r: Vec<Action>)
        ensures
            final(self).deep_view() == old(self).deep_view().expired(now),
            r.deep_view() == old(self).deep_view().moves(256, now),
    {
        let ghost v = self.deep_view();
        let ghost want = v.expired(now);
        let mut out: Vec<Action> = Vec::new();
        assert(out.deep_view() =~= Seq::empty());
        let mut n: u16 = 0;
        while n < 256
            invariant
                n <= 256,
                v == old(self).deep_view(),
                want == v.expired(now),
                self.addr == v.addr,
                self.mac == v.mac,
                self.amt@ == v.amt,
                out.deep_view() == v.moves(n as nat, now),
                forall|k: u8| #[trigger]
                    self.nodes@.contains_key(k) <==> if k < n {
                        want.nodes.contains_key(k)
                    } else {
                        v.nodes.contains_key(k)
                    },
                forall|k: u8| #[trigger]
                    self.nodes@.contains_key(k) ==> self.nodes@[k] == (if k < n {
                        want.nodes[k]
                    } else {
                        v.nodes[k]
                    }),
                forall|k: u8| #[trigger]
                    self.pending@.contains_key(k) <==> if k < n {
                        want.pending.contains_key(k)
                    } else {
                        v.pending.contains_key(k)
                    },
                forall|k: u8| #[trigger]
                    self.pending@.contains_key(k) ==> self.pending@[k] == v.pending[k],
            decreases 256 - n,
        {
            let k = n as u8;
            assert(self.nodes@.contains_key(k) <==> v.nodes.contains_key(k));
            assert(self.pending@.contains_key(k) <==> v.pending.contains_key(k));
            let old_entry = match self.nodes.get(&k) {
                Some(e) => elapsed(now, e.confirmed) >= ENTRY_TTL,
                None => false,
            };
            if old_entry {
                self.nodes.remove(&k);
            }
            let (done, moved) = match self.pending.get(&k) {
                Some(q) => (elapsed(now, q.asked) >= QUERY_TIMEOUT, q.moved_to),
                None => (false, None),
            };
            if done {
                self.pending.remove(&k);
                if let Some(side) = moved {
                    let mut s = fmt::text("node ");
                    fmt::push_dec(&mut s, k as u64);
                    fmt::push_text(&mut s, " moved to ");
                    fmt::push_text(&mut s, side.name());
                    assert(s@ =~= "node "@ + fmt::dec(k as nat) + " moved to "@ + side.text());
                    let ghost before = out.deep_view();
                    let ghost sv = s@;
                    out.push(Action::Report(s));
                    assert(out.deep_view() =~= before.push(ActionView::Report(sv)));
                    self.nodes.insert(k, Entry { side, confirmed: now, doubted: false });
                }
            }
            n = n + 1;
        }
        assert(self.nodes@ =~= want.nodes);
        assert(self.pending@ =~= want.pending);
        out
    }
}

// --------------------------------------------------------------------- laws

/// Law: our own ID, 0 and 255 never get an entry by being heard.
pub proof fn law_reserved_ids_are_never_learned(b: BridgeView, node: u8, side: Side, now: u64)
    requires
        node == 0 || node == 255 || node == b.addr.node,
    ensures
        b.confirmed(node, side, now) == (b, Seq::<ActionView>::empty()),
{
}

/// Law: a node that turns up on the other side is trusted on neither until the
/// contradiction is settled.
pub proof fn law_a_contradiction_is_not_believed(b: BridgeView, node: u8, side: Side, now: u64)
    requires
        node != 0 && node != 255 && node != b.addr.node,
        b.nodes.contains_key(node),
        !b.nodes[node].side.same_link(side),
    ensures
        b.confirmed(node, side, now).0.live(node) is None,
{
}

/// Law: a node that was heard on the other side, and of which the believed
/// side says nothing until the question times out, lives on that other side.
pub proof fn law_silence_means_a_move(b: BridgeView, node: u8, side: Side, now: u64, then: u64)
    requires
        node != 0 && node != 255 && node != b.addr.node,
        b.nodes.contains_key(node),
        !b.nodes[node].doubted,
        !b.nodes[node].side.same_link(side),
        !b.pending.contains_key(node),
        then - now >= QUERY_TIMEOUT,
    ensures
        b.confirmed(node, side, now).0.expired(then).live(node) == Some(side),
{
}

/// Law: one question about a node is in flight at a time.
pub proof fn law_one_question_at_a_time(
    b: BridgeView,
    node: u8,
    link: Ask,
    owed: Owed,
    moved_to: Option<Side>,
    now: u64,
)
    requires
        b.pending.contains_key(node),
    ensures
        b.asked(node, link, owed, moved_to, now) == (b, Seq::<ActionView>::empty()),
{
}

/// Law: a debt is paid once.
pub proof fn law_a_debt_is_paid_once(b: BridgeView, node: u8, first: Side, second: Side)
    requires
        b.settled(node, first).1.len() > 0,
    ensures
        b.settled(node, first).0.settled(node, second).1.len() == 0,
{
}

/// Law: a debt is never paid after the creditor gave up.
pub proof fn law_no_debt_outlives_its_query(b: BridgeView, node: u8, answered: Side, now: u64)
    requires
        b.overdue(node, now),
    ensures
        b.expired(now).settled(node, answered).1.len() == 0,
{
}

/// Law: nothing is answered for a node that Ethernet is believed to hold, nor
/// for one that is in doubt.
pub proof fn law_no_proxy_against_evidence(b: BridgeView, node: u8)
    requires
        b.elsewhere(node),
    ensures
        b.settled(node, Side::Local).1.len() == 0,
{
}

/// Law: a contested entry is not kept alive by traffic: hearing the node leaves
/// it as it was.
pub proof fn law_a_contest_ages_out(b: BridgeView, node: u8, side: Side, now: u64)
    requires
        b.nodes.contains_key(node),
        b.nodes[node].doubted,
    ensures
        b.confirmed(node, side, now).0.nodes[node] == b.nodes[node],
{
}

} // verus!
