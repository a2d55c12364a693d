//! What the clock does to a peer: retransmissions, tickles, updates, and the
//! orderly end.

use vstd::prelude::*;

use crate::router::aurp::{elapsed, grew, lemma_grew, lemma_no_more, lemma_same, nets_added, null_upd, null_update, since, starts_through, Out, Outstanding, Peer, Receiver, Sender, LAST_HEARD, NA, RECONNECT_BACKOFF, RETRIES, RETRY, TICKLE_RETRIES, UPDATE_INTERVAL};
use crate::router::dialog::happened;
use crate::router::pages::{pages_view, zi_req_pages};
use crate::router::table::{Tables, TablesView};
use crate::router::{Action, Target};
use crate::wire::aurp::EventTuple;
use crate::wire::Cmd;

verus! {

impl Peer {
    fn tickle_timer(&mut self, tables: &mut Tables, now: u64, out: &mut Out)
        requires
            old(self).receiver == Receiver::WaitTickleAck,
            since(now, old(self).recv_at) >= RETRY,
        ensures
            ({
                let s = old(self).deep_view().receiver_ticked(old(tables).deep_view(), now);
                &&& final(tables).deep_view() == s.tables
                &&& happened(s, *final(self), *old(out), *final(out))
            }),
    {
        proof {
            lemma_same(*out);
        }
        if self.recv_tries < TICKLE_RETRIES {
            self.recv_tries = self.recv_tries + 1;
            self.recv_at = now;
            let a = self.send(self.conn_local, 0, Cmd::Tickle);
            out.act(a);
            return;
        }
        let ghost v = tables.deep_view();
        let ch = tables.remove_target(Target::Peer(self.addr));
        let ghost more = ch@;
        out.changed(ch);
        let ghost mid = *out;
        self.close_receiver();
        // A probe on our sending side tells a peer that vanished from one that
        // merely lost its receiving half.
        if self.sender == Sender::Connected {
            let ghost p = self.deep_view();
            self.send_sequenced(null_upd(), Vec::new(), now, out);
            self.sender = Sender::WaitRiUpdAck;
            proof {
                let a = seq![p.sequenced_act(null_update())];
                lemma_grew(*old(out), mid, *out, Seq::empty(), more, a, Seq::empty());
                lemma_no_more(a, more);
            }
        }
    }

    /// Our end as data receiver: retransmits, tickles, gives up.
    pub(crate) fn receiver_timers(&mut self, tables: &mut Tables, now: u64, out: &mut Out)
        ensures
            ({
                let s = old(self).deep_view().receiver_ticked(old(tables).deep_view(), now);
                &&& final(tables).deep_view() == s.tables
                &&& happened(s, *final(self), *old(out), *final(out))
            }),
    {
        proof {
            lemma_same(*out);
        }
        let due = elapsed(now, self.recv_at) >= RETRY;
        match self.receiver {
            Receiver::WaitOpenRsp | Receiver::WaitRiRsp => if due {
                if self.recv_tries >= RETRIES {
                    self.close_receiver();
                } else {
                    self.recv_tries = self.recv_tries + 1;
                    self.recv_at = now;
                    let a = if self.receiver == Receiver::WaitOpenRsp {
                        self.open_request()
                    } else {
                        self.send(self.conn_local, 0, Cmd::RiReq { sui: Cmd::ALL_SUI })
                    };
                    out.act(a);
                }
            },
            Receiver::Connected => if elapsed(now, self.last_heard) > LAST_HEARD {
                self.receiver = Receiver::WaitTickleAck;
                self.recv_tries = 1;
                self.recv_at = now;
                let a = self.send(self.conn_local, 0, Cmd::Tickle);
                out.act(a);
            },
            Receiver::WaitTickleAck => if due {
                self.tickle_timer(tables, now, out);
            },
            Receiver::Unconnected => {},
        }
    }

    /// Our end as data sender: retransmits the packet outstanding, gives up,
    /// or sends what is pending.
    pub(crate) fn sender_timers(
        &mut self,
        now: u64,
        out: &mut Out,
        Ghost(tables): Ghost<TablesView>,
    )
        ensures
            happened(
                old(self).deep_view().sender_ticked(tables, now),
                *final(self),
                *old(out),
                *final(out),
            ),
    {
        proof {
            lemma_same(*out);
        }
        let addr = self.addr;
        match self.outstanding.take() {
            Some(o) => {
                if elapsed(now, o.at) < RETRY {
                    self.outstanding = Some(o);
                } else if o.tries >= RETRIES {
                    self.close_sender();
                } else {
                    let bytes = copy_bytes(&o.bytes);
                    out.act(Action::ToPeer { peer: addr, bytes });
                    self.outstanding = Some(
                        Outstanding {
                            seq: o.seq,
                            bytes: o.bytes,
                            tries: o.tries + 1,
                            at: now,
                            nets: o.nets,
                        },
                    );
                }
            },
            None => {
                if self.sender == Sender::Connected && self.pending.len() > 0 && elapsed(
                    now,
                    self.last_update,
                ) >= UPDATE_INTERVAL {
                    let ghost all = self.pending@;
                    let events = take_events(&mut self.pending);
                    let nets = starts_added(&events);
                    self.last_update = now;
                    self.send_sequenced(Cmd::RiUpd { events }, nets, now, out);
                    self.sender = Sender::WaitRiUpdAck;
                }
            },
        }
    }

    /// A configured peer we hold no connection to is asked again.
    pub(crate) fn reconnect(&mut self, now: u64, out: &mut Out, Ghost(tables): Ghost<TablesView>)
        ensures
            happened(
                old(self).deep_view().reconnected(tables, now),
                *final(self),
                *old(out),
                *final(out),
            ),
    {
        proof {
            lemma_same(*out);
        }
        let rested = match self.last_reconnect {
            Some(t) => elapsed(now, t) > RECONNECT_BACKOFF,
            None => true,
        };
        if self.configured.is_some() && self.receiver == Receiver::Unconnected && rested {
            self.open(now, out);
        }
    }

    /// Asks again for the zones of the networks behind this peer that still
    /// miss some: a lost ZI-Rsp would otherwise leave them without forever.
    pub(crate) fn zi_rerequest(&self, tables: &Tables, out: &mut Out)
        ensures
            happened(
                self.deep_view().zi_asked(tables.deep_view()),
                *self,
                *old(out),
                *final(out),
            ),
    {
        proof {
            lemma_same(*out);
        }
        if !self.receiver_open() {
            return;
        }
        let routes = tables.zoneless();
        let mut nets: Vec<u16> = Vec::new();
        let ghost rs = routes@;
        assert(rs.take(0) =~= Seq::empty());
        let mut i: usize = 0;
        while i < routes.len()
            invariant
                i <= routes@.len(),
                rs == routes@,
                nets@ == starts_through(rs.take(i as int), Target::Peer(self.addr)),
            decreases routes@.len() - i,
        {
            assert(rs.take(i + 1).drop_last() =~= rs.take(i as int));
            assert(rs.take(i + 1).last() == rs[i as int]);
            if routes[i].target == Target::Peer(self.addr) {
                nets.push(routes[i].range.0);
            }
            i = i + 1;
        }
        assert(rs.take(i as int) =~= rs);
        let cmds = zi_req_pages(&nets);
        self.send_all(self.conn_local, cmds, out);
    }

    /// The orderly end: an RD goes out and the connection waits for its ack.
    pub(crate) fn shut_down(&mut self, now: u64, out: &mut Out)
        ensures
            final(self).deep_view() == old(self).deep_view().shut(now),
            grew(*old(out), *final(out), old(self).deep_view().shut_acts(), Seq::empty()),
    {
        proof {
            lemma_same(*out);
        }
        if self.sender != Sender::Unconnected && self.sender != Sender::WaitRdAck {
            self.outstanding = None;
            self.pages = Vec::new();
            assert(pages_view(self.pages@) =~= Seq::empty());
            self.send_sequenced(Cmd::Rd { code: -1 }, Vec::new(), now, out);
            self.sender = Sender::WaitRdAck;
        }
    }
}

/// A copy of bytes.
fn copy_bytes(b: &Vec<u8>) -> (r: Vec<u8>)
    ensures
        r@ == b@,
{
    let mut out: Vec<u8> = Vec::new();
    crate::wire::push_bytes(&mut out, b.as_slice());
    assert(out@ =~= b@);
    out
}

/// The pending events, which are pending no more.
fn take_events(pending: &mut Vec<EventTuple>) -> (r: Vec<EventTuple>)
    ensures
        r@ == old(pending)@,
        final(pending)@ == Seq::<EventTuple>::empty(),
{
    let mut out: Vec<EventTuple> = Vec::new();
    out.append(pending);
    assert(out@ =~= old(pending)@);
    out
}

/// The networks that events add.
fn starts_added(events: &Vec<EventTuple>) -> (r: Vec<u16>)
    ensures
        r@ == nets_added(events@),
{
    let ghost es = events@;
    let mut out: Vec<u16> = Vec::new();
    assert(es.take(0) =~= Seq::empty());
    let mut i: usize = 0;
    while i < events.len()
        invariant
            i <= events@.len(),
            es == events@,
            out@ == nets_added(es.take(i as int)),
        decreases events@.len() - i,
    {
        assert(es.take(i + 1).drop_last() =~= es.take(i as int));
        assert(es.take(i + 1).last() == es[i as int]);
        if events[i].code == NA {
            out.push(events[i].tuple.range.0);
        }
        i = i + 1;
    }
    assert(es.take(i as int) =~= es);
    out
}

} // verus!
