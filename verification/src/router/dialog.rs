//! The dialog with one AURP peer: what each routing packet does.

use vstd::prelude::*;

use crate::router::aurp::{adds, applied, applied_all, grew, knows, learned_all, lemma_grew, lemma_no_more, lemma_same, names_for, nets_named, null_upd, starts_of, succ, total_of, zones_added, Out, Peer, PeerView, Receiver, Sender, Seqno, Step, NA, ND, NDC, NRC};
use crate::router::pages::{pages_view, split_tuples, zi_pages, zi_replies};
use crate::router::table::{has_number, RouteChange, Tables, TablesView, FAR};
use crate::router::Target;
use crate::wire::aurp::{options_view, EventTuple};
use crate::wire::zip::zones_view;
use crate::wire::{Addr, Cmd, Ipv4Addr, NetworkTuple};

verus! {

/// Whether a step is what happened.
pub open spec fn happened(
    s: Step,
    peer: Peer,
    before: Out,
    after: Out,
) -> bool {
    peer.deep_view() == s.peer && grew(before, after, s.acts, s.chs)
}

impl Peer {
    pub(crate) fn open_req(
        &mut self,
        conn: u16,
        version: u16,
        options: &Vec<(u8, Vec<u8>)>,
        now: u64,
        out: &mut Out,
        Ghost(tables): Ghost<TablesView>,
    )
        ensures
            happened(
                old(self).deep_view().open_req(
                    conn,
                    version,
                    options_view(options@),
                    tables,
                    now,
                ),
                *final(self),
                *old(out),
                *final(out),
            ),
    {
        proof {
            lemma_same(*out);
        }
        if version != 1 {
            let a = self.open_rsp(conn, -5);
            out.act(a);
            return;
        }
        if options.len() > 0 {
            let a = self.open_rsp(conn, -4);
            out.act(a);
            return;
        }
        // A different ID on an open connection probably means the peer
        // restarted -- but it may be a forgery, so probe the old connection
        // and answer only if the probe goes unanswered.
        if self.sender != Sender::Unconnected && conn != self.conn_remote {
            if !self.probing && self.outstanding.is_none() {
                self.probing = true;
                self.send_sequenced(null_upd(), Vec::new(), now, out);
                self.sender = Sender::WaitRiUpdAck;
            }
            return;
        }
        self.conn_remote = conn;
        self.seq_send = 0;
        self.outstanding = None;
        self.pages = Vec::new();
        self.sender = Sender::Connected;
        assert(pages_view(self.pages@) =~= Seq::empty());
        let a = self.open_rsp(conn, 1);
        let ghost av = a.deep_view();
        out.act(a);
        // A router that gets an Open-Req and has no connection of its own to
        // that peer opens one immediately.
        if self.receiver == Receiver::Unconnected {
            let ghost mid = *out;
            let ghost p = self.deep_view();
            self.open(now, out);
            proof {
                lemma_grew(
                    *old(out),
                    mid,
                    *out,
                    seq![av],
                    Seq::empty(),
                    seq![p.open_act()],
                    Seq::empty(),
                );
                assert(seq![av] + seq![p.open_act()] =~= seq![av, p.open_act()]);
                lemma_no_more(Seq::empty(), Seq::empty());
            }
        }
    }

    /// Send the next RI-Rsp page, with Last set once it is the final one.
    pub(crate) fn send_page(
        &mut self,
        now: u64,
        out: &mut Out,
        Ghost(tables): Ghost<TablesView>,
    )
        ensures
            happened(
                old(self).deep_view().page_sent(tables, now),
                *final(self),
                *old(out),
                *final(out),
            ),
    {
        proof {
            lemma_same(*out);
        }
        assert(self.deep_view().pages.len() == self.pages@.len());
        if self.pages.len() == 0 {
            return;
        }
        let ghost all = self.deep_view().pages;
        assert(all[0] == self.pages@[0]@);
        let tuples = self.pages.remove(0);
        assert(pages_view(self.pages@) =~= all.drop_first());
        let last = self.pages.len() == 0;
        let nets = starts_in_order(&tuples);
        self.send_sequenced(Cmd::RiRsp { last, tuples }, nets, now, out);
        self.sender = Sender::WaitRiRspAck;
    }

    /// Starts the export over.
    pub(crate) fn refresh(&mut self, tables: &Tables, now: u64, out: &mut Out)
        ensures
            happened(
                old(self).deep_view().refreshed(tables.deep_view(), now),
                *final(self),
                *old(out),
                *final(out),
            ),
    {
        self.seq_send = 0;
        self.outstanding = None;
        self.pages = split_tuples(tables.export());
        self.send_page(now, out, Ghost(tables.deep_view()));
    }

    pub(crate) fn ri_ack(&mut self, seq: u16, szi: bool, tables: &Tables, now: u64, out: &mut Out)
        ensures
            happened(
                old(self).deep_view().ri_ack(seq, szi, tables.deep_view(), now),
                *final(self),
                *old(out),
                *final(out),
            ),
    {
        let ghost p = self.deep_view();
        let ghost v = tables.deep_view();
        proof {
            lemma_same(*out);
        }
        // An RI-Ack counts only against the packet actually outstanding.
        let matches_seq = match &self.outstanding {
            Some(o) => o.seq == seq,
            None => false,
        };
        if !matches_seq {
            return;
        }
        let nets = match self.outstanding.take() {
            Some(o) => o.nets,
            None => Vec::new(),
        };
        let ghost zones = if szi {
            p.sends(p.conn_remote, zi_replies(nets@, v))
        } else {
            Seq::empty()
        };
        if szi {
            let cmds = zi_pages(&nets, tables);
            self.send_all(self.conn_remote, cmds, out);
            assert(self.deep_view().sends(p.conn_remote, zi_replies(nets@, v)) =~= zones);
        }
        let ghost mid = *out;
        assert(grew(*old(out), mid, zones, Seq::empty()));
        assert(self.deep_view().pages.len() == self.pages@.len());
        match self.sender {
            Sender::WaitRiRspAck => {
                if self.pages.len() > 0 {
                    let ghost q = self.deep_view();
                    self.send_page(now, out, Ghost(v));
                    proof {
                        let s = q.page_sent(v, now);
                        lemma_grew(*old(out), mid, *out, zones, Seq::empty(), s.acts, s.chs);
                        lemma_no_more(Seq::empty(), s.chs);
                    }
                } else {
                    self.sender = Sender::Connected;
                    self.probing = false;
                }
            },
            Sender::WaitRiUpdAck => {
                self.sender = Sender::Connected;
                self.probing = false;
            },
            Sender::WaitRdAck => self.close_sender(),
            _ => {},
        }
    }

    /// Learn every tuple of a page.
    fn learn_all(&self, tuples: &Vec<NetworkTuple>, tables: &mut Tables, now: u64, out: &mut Out)
        ensures
            ({
                let (n, chs) = learned_all(old(tables).deep_view(), tuples@, self.addr, now);
                &&& final(tables).deep_view() == n
                &&& grew(*old(out), *final(out), Seq::empty(), chs)
            }),
    {
        let ghost ts = tuples@;
        let ghost v = tables.deep_view();
        proof {
            lemma_same(*out);
        }
        assert(ts.take(0) =~= Seq::empty());
        let mut i: usize = 0;
        while i < tuples.len()
            invariant
                i <= tuples@.len(),
                ts == tuples@,
                tables.deep_view() == learned_all(v, ts.take(i as int), self.addr, now).0,
                grew(
                    *old(out),
                    *out,
                    Seq::empty(),
                    learned_all(v, ts.take(i as int), self.addr, now).1,
                ),
            decreases tuples@.len() - i,
        {
            assert(ts.take(i + 1).drop_last() =~= ts.take(i as int));
            assert(ts.take(i + 1).last() == ts[i as int]);
            if tuples[i].distance < FAR {
                let ghost mid = *out;
                let ghost chs = learned_all(v, ts.take(i as int), self.addr, now).1;
                let ch = tables.learn(
                    &tuples[i],
                    Target::Peer(self.addr),
                    Addr { net: 0, node: 0 },
                    now,
                );
                let ghost more = ch@;
                out.changed(ch);
                proof {
                    lemma_grew(*old(out), mid, *out, Seq::empty(), chs, Seq::empty(), more);
                    lemma_no_more(Seq::empty(), chs);
                }
            }
            i = i + 1;
        }
        assert(ts.take(i as int) =~= ts);
    }

    /// Apply one update event to the tables.
    fn apply(&self, e: &EventTuple, tables: &mut Tables, now: u64) -> (r: Vec<RouteChange>)
        ensures
            ({
                let (n, chs) = applied(old(tables).deep_view(), *e, self.addr, now);
                &&& final(tables).deep_view() == n
                &&& r@ == chs
            }),
    {
        let target = Target::Peer(self.addr);
        let start = e.tuple.range.0;
        let next = Addr { net: 0, node: 0 };
        let far = e.tuple.distance >= FAR;
        match e.code {
            // NA for a known network is a distance change, so 15 hops is a
            // deletion; `learn` replaces an existing entry otherwise.
            NA => if far {
                tables.remove(target, start)
            } else {
                tables.learn(&e.tuple, target, next, now)
            },
            // ND or NRC for an unknown network removes nothing.
            ND => tables.remove(target, start),
            NRC => tables.remove(target, start),
            NDC => if far {
                tables.remove(target, start)
            } else if !has_route(tables, self.addr, start) {
                // NDC for an unknown network is treated as NA.
                tables.learn(&e.tuple, target, next, now)
            } else {
                // The stored distance is the peer's plus the tunnel hop.
                tables.set_distance(target, start, e.tuple.distance + 1, now)
            },
            // 0 null, 5 ZC and anything else: nothing to do beyond the ack.
            _ => Vec::new(),
        }
    }

    /// Apply every event of an update; true if one of them adds a network.
    fn apply_all(
        &self,
        events: &Vec<EventTuple>,
        tables: &mut Tables,
        now: u64,
        out: &mut Out,
    ) -> (szi: bool)
        ensures
            ({
                let (n, chs) = applied_all(old(tables).deep_view(), events@, self.addr, now);
                &&& final(tables).deep_view() == n
                &&& grew(*old(out), *final(out), Seq::empty(), chs)
            }),
            szi == adds(events@),
    {
        let ghost es = events@;
        let ghost v = tables.deep_view();
        let mut szi = false;
        proof {
            lemma_same(*out);
        }
        assert(es.take(0) =~= Seq::empty());
        let mut i: usize = 0;
        while i < events.len()
            invariant
                i <= events@.len(),
                es == events@,
                tables.deep_view() == applied_all(v, es.take(i as int), self.addr, now).0,
                grew(
                    *old(out),
                    *out,
                    Seq::empty(),
                    applied_all(v, es.take(i as int), self.addr, now).1,
                ),
                szi == (exists|j: int| 0 <= j < i && (#[trigger] es[j]).code == NA),
            decreases events@.len() - i,
        {
            assert(es.take(i + 1).drop_last() =~= es.take(i as int));
            assert(es.take(i + 1).last() == es[i as int]);
            let ghost mid = *out;
            let ghost chs = applied_all(v, es.take(i as int), self.addr, now).1;
            let ch = self.apply(&events[i], tables, now);
            let ghost more = ch@;
            out.changed(ch);
            proof {
                lemma_grew(*old(out), mid, *out, Seq::empty(), chs, Seq::empty(), more);
                lemma_no_more(Seq::empty(), chs);
            }
            if events[i].code == NA {
                szi = true;
            }
            i = i + 1;
        }
        assert(es.take(i as int) =~= es);
        szi
    }

    fn zi_rsp(
        &self,
        extended: Option<u16>,
        zones: &Vec<(u16, String)>,
        tables: &mut Tables,
        out: &mut Out,
    )
        ensures
            ({
                let zs = zones_view(zones@);
                let (n, chs) = zones_added(
                    old(tables).deep_view(),
                    nets_named(zs),
                    zs,
                    extended,
                );
                &&& final(tables).deep_view() == n
                &&& grew(*old(out), *final(out), Seq::empty(), chs)
            }),
    {
        let ghost zs = zones_view(zones@);
        let ghost v = tables.deep_view();
        // Tuples for one network are contiguous but a network may appear more
        // than once, so group before calling the table.
        let order = nets_in_order(zones);
        let expected: Option<usize> = match extended {
            Some(n) => Some(n as usize),
            None => None,
        };
        proof {
            lemma_same(*out);
        }
        assert(order@.take(0) =~= Seq::empty());
        let mut i: usize = 0;
        while i < order.len()
            invariant
                i <= order@.len(),
                zs == zones_view(zones@),
                expected == total_of(extended),
                tables.deep_view() == zones_added(v, order@.take(i as int), zs, extended).0,
                grew(
                    *old(out),
                    *out,
                    Seq::empty(),
                    zones_added(v, order@.take(i as int), zs, extended).1,
                ),
            decreases order@.len() - i,
        {
            assert(order@.take(i + 1).drop_last() =~= order@.take(i as int));
            assert(order@.take(i + 1).last() == order@[i as int]);
            let net = order[i];
            // Split horizon in reverse: a peer has nothing to tell us about a
            // cable of our own.
            let ours = match tables.best(net) {
                Some(r) => matches!(r.target, Target::Port(_)),
                None => false,
            };
            if !ours {
                let ghost mid = *out;
                let ghost chs = zones_added(v, order@.take(i as int), zs, extended).1;
                let names = names_of_net(zones, net);
                let more = names.as_slice();
                assert(more.deep_view() =~= names.deep_view());
                let ch = tables.add_zones(net, more, expected);
                let ghost more = ch@;
                out.changed(ch);
                proof {
                    lemma_grew(*old(out), mid, *out, Seq::empty(), chs, Seq::empty(), more);
                    lemma_no_more(Seq::empty(), chs);
                }
            }
            i = i + 1;
        }
        assert(order@.take(i as int) =~= order@);
    }

    fn on_ri_rsp(
        &mut self,
        seq: u16,
        last: bool,
        tuples: &Vec<NetworkTuple>,
        tables: &mut Tables,
        now: u64,
        out: &mut Out,
    )
        ensures
            ({
                let s = old(self).deep_view().ri_rsp(
                    seq,
                    last,
                    tuples@,
                    old(tables).deep_view(),
                    now,
                );
                &&& final(tables).deep_view() == s.tables
                &&& happened(s, *final(self), *old(out), *final(out))
            }),
    {
        proof {
            lemma_same(*out);
        }
        let ghost v = tables.deep_view();
        let ghost p = self.deep_view();
        self.last_heard = now;
        match self.check_seq(seq) {
            Seqno::New => {
                self.learn_all(tuples, tables, now, out);
                let ghost mid = *out;
                let a = self.ack(self.conn_local, seq, true);
                let ghost av = a.deep_view();
                self.seq_recv = succ(seq);
                out.act(a);
                if last {
                    self.receiver = Receiver::Connected;
                }
                proof {
                    let chs = learned_all(v, tuples@, p.addr, now).1;
                    lemma_grew(*old(out), mid, *out, Seq::empty(), chs, seq![av], Seq::empty());
                    lemma_no_more(seq![av], chs);
                }
            },
            Seqno::Dup => {
                let a = self.ack(self.conn_local, seq, true);
                out.act(a);
            },
            Seqno::Ahead => self.close_receiver(),
            Seqno::Stale => {},
        }
    }

    fn on_ri_upd(
        &mut self,
        seq: u16,
        events: &Vec<EventTuple>,
        tables: &mut Tables,
        now: u64,
        out: &mut Out,
    )
        ensures
            ({
                let s = old(self).deep_view().ri_upd(seq, events@, old(tables).deep_view(), now);
                &&& final(tables).deep_view() == s.tables
                &&& happened(s, *final(self), *old(out), *final(out))
            }),
    {
        proof {
            lemma_same(*out);
        }
        let ghost v = tables.deep_view();
        let ghost p = self.deep_view();
        self.last_heard = now;
        match self.check_seq(seq) {
            Seqno::New => {
                let szi = self.apply_all(events, tables, now, out);
                let ghost mid = *out;
                let a = self.ack(self.conn_local, seq, szi);
                let ghost av = a.deep_view();
                self.seq_recv = succ(seq);
                out.act(a);
                proof {
                    let chs = applied_all(v, events@, p.addr, now).1;
                    lemma_grew(*old(out), mid, *out, Seq::empty(), chs, seq![av], Seq::empty());
                    lemma_no_more(seq![av], chs);
                }
            },
            // A lost ZI-Rsp is the likelier reason to be here than a lost ack.
            Seqno::Dup => {
                let a = self.ack(self.conn_local, seq, true);
                out.act(a);
            },
            Seqno::Ahead => self.close_receiver(),
            Seqno::Stale => {},
        }
    }

    fn on_rd(&mut self, seq: u16, tables: &mut Tables, out: &mut Out)
        ensures
            ({
                let s = old(self).deep_view().rd(seq, old(tables).deep_view());
                &&& final(tables).deep_view() == s.tables
                &&& happened(s, *final(self), *old(out), *final(out))
            }),
    {
        proof {
            lemma_same(*out);
        }
        match self.check_seq(seq) {
            Seqno::New => {
                let a = self.ack(self.conn_local, seq, false);
                let ghost av = a.deep_view();
                out.act(a);
                let ghost mid = *out;
                let ch = tables.remove_target(Target::Peer(self.addr));
                let ghost more = ch@;
                out.changed(ch);
                self.close_receiver();
                self.close_sender();
                proof {
                    lemma_grew(*old(out), mid, *out, seq![av], Seq::empty(), Seq::empty(), more);
                    lemma_no_more(seq![av], more);
                }
            },
            Seqno::Dup => {
                let a = self.ack(self.conn_local, seq, false);
                out.act(a);
            },
            Seqno::Ahead => self.close_receiver(),
            Seqno::Stale => {},
        }
    }

    fn on_open_rsp(
        &mut self,
        rate_or_err: i16,
        now: u64,
        out: &mut Out,
        Ghost(tables): Ghost<TablesView>,
    )
        ensures
            happened(
                old(self).deep_view().open_answered(rate_or_err, tables, now),
                *final(self),
                *old(out),
                *final(out),
            ),
    {
        proof {
            lemma_same(*out);
        }
        if rate_or_err < 0 {
            self.close_receiver();
            return;
        }
        // The rate is ignored and the minimum update interval used for every
        // peer.
        self.receiver = Receiver::WaitRiRsp;
        self.seq_recv = 1;
        self.recv_tries = 1;
        self.recv_at = now;
        self.last_heard = now;
        let a = self.send(self.conn_local, 0, Cmd::RiReq { sui: Cmd::ALL_SUI });
        out.act(a);
    }

    /// One routing packet, dispatched by command. Everything addressed to a
    /// connection ID that is not the one expected is discarded.
    #[verifier::spinoff_prover]
    #[verifier::rlimit(60)]
    pub fn routing(
        &mut self,
        conn: u16,
        seq: u16,
        cmd: Cmd,
        tables: &mut Tables,
        now: u64,
        out: &mut Out,
    )
        ensures
            ({
                let s = old(self).deep_view().routing(
                    conn,
                    seq,
                    cmd.deep_view(),
                    old(tables).deep_view(),
                    now,
                );
                &&& final(tables).deep_view() == s.tables
                &&& happened(s, *final(self), *old(out), *final(out))
            }),
    {
        proof {
            reveal(PeerView::routing);
            lemma_same(*out);
        }
        let ghost v = tables.deep_view();
        if cmd.is_transaction() && seq != 0 {
            return;
        }
        let serving = conn == self.conn_remote && self.sender != Sender::Unconnected;
        let ours = conn == self.conn_local && self.receiver_open();
        match cmd {
            // ------------------------------------------- as the data sender
            Cmd::OpenReq { version, options, .. } => {
                self.open_req(conn, version, &options, now, out, Ghost(v));
            },
            // Not while an RD is out: we are on the way down, and restarting
            // the export would abandon the RD.
            Cmd::RiReq { .. } => if serving && self.sender != Sender::WaitRdAck {
                self.refresh(tables, now, out);
            },
            Cmd::RiAck { szi } => if conn == self.conn_remote {
                self.ri_ack(seq, szi, tables, now, out);
            },
            Cmd::Tickle => if serving {
                let a = self.send(conn, 0, Cmd::TickleAck);
                out.act(a);
            },
            Cmd::ZiReq { nets } => if serving {
                let cmds = zi_pages(&nets, tables);
                self.send_all(conn, cmds, out);
            },
            // Neither is supported, and neither costs any state to refuse --
            // but both still answer only on an open connection.
            Cmd::GznReq { zone } => if serving {
                let a = self.send(conn, 0, Cmd::GznRsp { zone, tuples: None });
                out.act(a);
            },
            Cmd::GdzlReq { .. } => if serving {
                let zones: Vec<String> = Vec::new();
                assert(zones.deep_view() =~= Seq::empty());
                let a = self.send(conn, 0, Cmd::GdzlRsp { last: true, start: -1, zones });
                out.act(a);
            },
            // ----------------------------------------- as the data receiver
            Cmd::OpenRsp { rate_or_err, .. } => if conn == self.conn_local && self.receiver
                == Receiver::WaitOpenRsp {
                self.on_open_rsp(rate_or_err, now, out, Ghost(v));
            },
            Cmd::RiRsp { last, tuples } => if ours {
                self.on_ri_rsp(seq, last, &tuples, tables, now, out);
            },
            Cmd::RiUpd { events } => if ours {
                self.on_ri_upd(seq, &events, tables, now, out);
            },
            Cmd::Rd { .. } => if ours {
                self.on_rd(seq, tables, out);
            },
            Cmd::ZiRsp { extended, zones } => if ours {
                self.last_heard = now;
                self.zi_rsp(extended, &zones, tables, out);
            },
            Cmd::TickleAck => if conn == self.conn_local && self.receiver
                == Receiver::WaitTickleAck {
                self.receiver = Receiver::Connected;
                self.recv_tries = 0;
                self.last_heard = now;
            },
            _ => {},
        }
    }
}

/// The range starts of tuples.
fn starts_in_order(ts: &Vec<NetworkTuple>) -> (r: Vec<u16>)
    ensures
        r@ == starts_of(ts@),
{
    let mut out: Vec<u16> = Vec::new();
    let mut i: usize = 0;
    while i < ts.len()
        invariant
            i <= ts@.len(),
            out@ == starts_of(ts@).take(i as int),
        decreases ts@.len() - i,
    {
        out.push(ts[i].range.0);
        i = i + 1;
        assert(out@ =~= starts_of(ts@).take(i as int));
    }
    assert(out@ =~= starts_of(ts@));
    out
}

/// Whether the tables hold a route to a range through a peer.
fn has_route(tables: &Tables, peer: Ipv4Addr, start: u16) -> (r: bool)
    ensures
        r == knows(tables.deep_view(), peer, start),
{
    let routes = tables.routes();
    let ghost v = tables.deep_view();
    let mut i: usize = 0;
    while i < routes.len()
        invariant
            i <= routes@.len(),
            v == tables.deep_view(),
            routes@ == v.routes,
            forall|j: int|
                0 <= j < i ==> !((#[trigger] v.routes[j]).target == Target::Peer(peer)
                    && v.routes[j].range.0 == start),
        decreases routes@.len() - i,
    {
        if routes[i].target == Target::Peer(peer) && routes[i].range.0 == start {
            return true;
        }
        i = i + 1;
    }
    false
}

/// The networks of a zone list, each once.
fn nets_in_order(zones: &Vec<(u16, String)>) -> (r: Vec<u16>)
    ensures
        r@ == nets_named(zones_view(zones@)),
{
    let ghost zs = zones_view(zones@);
    let mut out: Vec<u16> = Vec::new();
    assert(zs.take(0) =~= Seq::empty());
    let mut i: usize = 0;
    while i < zones.len()
        invariant
            i <= zones@.len(),
            zs == zones_view(zones@),
            out@ == nets_named(zs.take(i as int)),
        decreases zones@.len() - i,
    {
        assert(zs.take(i + 1).drop_last() =~= zs.take(i as int));
        assert(zs.take(i + 1).last() == zs[i as int]);
        let net = zones[i].0;
        if !has_number(&out, net) {
            out.push(net);
        }
        i = i + 1;
    }
    assert(zs.take(i as int) =~= zs);
    out
}

/// The names a zone list gives one network.
fn names_of_net(zones: &Vec<(u16, String)>, net: u16) -> (r: Vec<String>)
    ensures
        r.deep_view() == names_for(zones_view(zones@), net),
{
    let ghost zs = zones_view(zones@);
    let mut out: Vec<String> = Vec::new();
    assert(zs.take(0) =~= Seq::empty());
    assert(out.deep_view() =~= Seq::empty());
    let mut i: usize = 0;
    while i < zones.len()
        invariant
            i <= zones@.len(),
            zs == zones_view(zones@),
            out.deep_view() == names_for(zs.take(i as int), net),
        decreases zones@.len() - i,
    {
        assert(zs.take(i + 1).drop_last() =~= zs.take(i as int));
        assert(zs.take(i + 1).last() == zs[i as int]);
        if zones[i].0 == net {
            let ghost before = out.deep_view();
            let n = zones[i].1.clone();
            let ghost nv = n@;
            out.push(n);
            assert(out.deep_view() =~= before.push(nv));
        }
        i = i + 1;
    }
    assert(zs.take(i as int) =~= zs);
    out
}

} // verus!
