//! Reassembly of messages that span several datagrams. It is driven by the
//! frontend's loop, so a frontend can render raw packets and reassembled
//! messages side by side. Every time is in milliseconds.

use std::collections::HashMap;

use vstd::prelude::*;

use crate::fmt;
use crate::router::aurp::{elapsed, since};
use crate::wire::atp::{eom_bit, AtpView, Func};
use crate::wire::ddp::DdpView;
use crate::wire::frame::{BodyView, DdpBodyView};
use crate::wire::zip::ZipAtpView;
use crate::wire::{push_bytes, Addr, Atp, Body, Ddp, DdpBody, Packet, ZipAtp};

verus! {

/// The Zone Information Socket. ZIP's ATP requests are always addressed here,
/// so a completed transaction from socket 6 is a ZIP reply.
pub const ZIS: u8 = 6;

/// ATP's shortest release timer. A transaction quiet for longer than this is
/// never going to complete.
pub const TXN_TIMEOUT: u64 = 30000;

/// A backstop for the timeout, in case a flood arrives faster than the clock
/// advances.
pub const MAX_OPEN: usize = 512;

/// Identifies one ATP transaction. The address pair plus sockets, because a
/// TID is only unique between a given pair of sockets.
#[derive(Debug, Clone, Copy, PartialEq, Eq, Structural)]
pub struct TxnKey {
    pub src: Addr,
    pub src_socket: u8,
    pub dst: Addr,
    pub dst_socket: u8,
    pub tid: u16,
}

/// A completed ATP response message.
#[derive(Debug, PartialEq, Eq)]
pub struct Transaction {
    pub key: TxnKey,
    /// From response packet 0. ASP and PAP put their headers here.
    pub user_bytes: [u8; 4],
    /// Response payloads concatenated in sequence order.
    pub data: Vec<u8>,
    /// When the transaction completed.
    pub at: u64,
}

/// A completed transaction, as data.
pub struct TransactionView {
    pub key: TxnKey,
    pub user_bytes: Seq<u8>,
    pub data: Seq<u8>,
    pub at: u64,
}

impl DeepView for Transaction {
    type V = TransactionView;

    open spec fn deep_view(&self) -> TransactionView {
        TransactionView {
            key: self.key,
            user_bytes: self.user_bytes@,
            data: self.data@,
            at: self.at,
        }
    }
}

/// Responses by sequence number, so duplicates are idempotent and out-of-order
/// arrival needs no special case. Both are normal: a requester that misses a
/// response retransmits its TReq with a bitmap of only the missing ones.
pub struct Partial {
    pub key: TxnKey,
    pub segments: HashMap<u8, Vec<u8>>,
    pub user_bytes: [u8; 4],
    /// Sequence number of the packet carrying EOM, once seen.
    pub last: Option<u8>,
    pub first_seen: u64,
}

/// A transaction in flight, as data.
pub struct PartialView {
    pub key: TxnKey,
    pub segments: Map<u8, Seq<u8>>,
    pub user_bytes: Seq<u8>,
    pub last: Option<u8>,
    pub first_seen: u64,
}

impl DeepView for Partial {
    type V = PartialView;

    open spec fn deep_view(&self) -> PartialView {
        PartialView {
            key: self.key,
            segments: Map::new(
                |k: u8| self.segments@.contains_key(k),
                |k: u8| self.segments@[k]@,
            ),
            user_bytes: self.user_bytes@,
            last: self.last,
            first_seen: self.first_seen,
        }
    }
}

/// The first `n` segments end to end, if all of them are there.
pub open spec fn joined(segments: Map<u8, Seq<u8>>, n: nat) -> Option<Seq<u8>>
    decreases n,
{
    if n == 0 {
        Some(Seq::empty())
    } else {
        match joined(segments, (n - 1) as nat) {
            None => None,
            Some(s) => if segments.contains_key((n - 1) as u8) {
                Some(s + segments[(n - 1) as u8])
            } else {
                None
            },
        }
    }
}

impl PartialView {
    pub open spec fn fresh(key: TxnKey, at: u64) -> PartialView {
        PartialView {
            key,
            segments: Map::empty(),
            user_bytes: seq![0u8, 0u8, 0u8, 0u8],
            last: None,
            first_seen: at,
        }
    }

    /// With one response taken in. The user bytes are those of response 0,
    /// which is there whenever the transaction is complete.
    pub open spec fn with(self, a: AtpView) -> PartialView {
        PartialView {
            segments: self.segments.insert(a.bitmap, a.data),
            user_bytes: if a.bitmap == 0 {
                a.user_bytes
            } else {
                self.user_bytes
            },
            last: if eom_bit(a.control) {
                Some(a.bitmap)
            } else {
                self.last
            },
            ..self
        }
    }

    /// Complete once EOM has arrived and every sequence up to it is present.
    pub open spec fn complete(self) -> Option<Seq<u8>> {
        match self.last {
            None => None,
            Some(l) => joined(self.segments, (l + 1) as nat),
        }
    }
}

impl Partial {
    fn new(key: TxnKey, first_seen: u64) -> (r: Partial)
        ensures
            r.deep_view() == PartialView::fresh(key, first_seen),
    {
        let user_bytes: [u8; 4] = [0, 0, 0, 0];
        assert(user_bytes@ =~= seq![0u8, 0u8, 0u8, 0u8]);
        let r = Partial { key, segments: HashMap::new(), user_bytes, last: None, first_seen };
        assert(r.deep_view().segments =~= Map::empty());
        r
    }

    fn take(&mut self, a: &Atp)
        ensures
            final(self).deep_view() == old(self).deep_view().with(a.deep_view()),
    {
        let ghost before = self.deep_view();
        if a.bitmap == 0 {
            self.user_bytes = a.user_bytes;
        }
        let mut data: Vec<u8> = Vec::new();
        push_bytes(&mut data, a.data.as_slice());
        assert(data@ =~= a.data@);
        self.segments.insert(a.bitmap, data);
        if a.eom() {
            self.last = Some(a.bitmap);
        }
        assert(self.deep_view().segments =~= before.segments.insert(a.bitmap, a.data@));
    }

    fn take_if_complete(&self) -> (r: Option<Vec<u8>>)
        ensures
            r.deep_view() == self.deep_view().complete(),
    {
        let last = match self.last {
            Some(l) => l,
            None => {
                return None;
            },
        };
        let ghost segs = self.deep_view().segments;
        let n: usize = last as usize + 1;
        let mut out: Vec<u8> = Vec::new();
        let mut i: usize = 0;
        while i < n
            invariant
                i <= n,
                n == last + 1,
                self.last == Some(last),
                segs == self.deep_view().segments,
                joined(segs, i as nat) == Some(out@),
            decreases n - i,
        {
            match self.segments.get(&(i as u8)) {
                Some(s) => {
                    push_bytes(&mut out, s.as_slice());
                },
                None => {
                    proof {
                        lemma_joined_stops(segs, (i + 1) as nat, n as nat);
                    }
                    return None;
                },
            }
            i = i + 1;
        }
        Some(out)
    }
}

/// Once a segment is missing, so is the rest.
proof fn lemma_joined_stops(segs: Map<u8, Seq<u8>>, m: nat, n: nat)
    requires
        m <= n,
        joined(segs, m) is None,
    ensures
        joined(segs, n) is None,
    decreases n,
{
    if m < n {
        lemma_joined_stops(segs, m, (n - 1) as nat);
    }
}

// ------------------------------------------------------------ transactions

/// The transaction an ATP response belongs to. A response travels from
/// responder to requester, so the transaction's source is the packet's source.
pub open spec fn key_of(d: DdpView, a: AtpView) -> TxnKey {
    TxnKey {
        src: d.src,
        src_socket: d.src_socket,
        dst: d.dst,
        dst_socket: d.dst_socket,
        tid: a.tid,
    }
}

/// A response that belongs to a transaction. Sequence numbers go up to 7.
pub open spec fn response_in(b: BodyView) -> Option<(TxnKey, AtpView)> {
    match b {
        BodyView::Ddp(d, DdpBodyView::Atp(a)) => if a.func == Func::Resp && a.bitmap <= 7 {
            Some((key_of(d, a), a))
        } else {
            None
        },
        _ => None,
    }
}

/// The transactions that are not too old. Packet arrival is the clock, so this
/// is the same when a stored capture is replayed.
pub open spec fn fresh_ones(open: Seq<PartialView>, now: u64) -> Seq<PartialView>
    decreases open.len(),
{
    if open.len() == 0 {
        Seq::empty()
    } else if since(now, open.last().first_seen) < TXN_TIMEOUT {
        fresh_ones(open.drop_last(), now).push(open.last())
    } else {
        fresh_ones(open.drop_last(), now)
    }
}

/// Where the oldest transaction stands, the first of them on a tie.
pub open spec fn oldest(open: Seq<PartialView>) -> int
    decreases open.len(),
{
    if open.len() <= 1 {
        0
    } else {
        let i = oldest(open.drop_last());
        if open.last().first_seen < open[i].first_seen {
            open.len() - 1
        } else {
            i
        }
    }
}

/// With the oldest dropped until `n` are left.
pub open spec fn trimmed(open: Seq<PartialView>, n: nat) -> Seq<PartialView>
    decreases open.len(),
{
    if open.len() <= n || open.len() == 0 {
        open
    } else {
        proof {
            lemma_oldest(open);
        }
        trimmed(open.remove(oldest(open)), n)
    }
}

/// What is left in flight at `now`. This comes before a packet's own entry, so
/// one slot is left free for it.
pub open spec fn expired(open: Seq<PartialView>, now: u64) -> Seq<PartialView> {
    trimmed(fresh_ones(open, now), (MAX_OPEN - 1) as nat)
}

/// Where a transaction stands among those in flight, or -1.
pub open spec fn index_of_key(open: Seq<PartialView>, k: TxnKey) -> int
    decreases open.len(),
{
    if open.len() == 0 {
        -1
    } else {
        let i = index_of_key(open.drop_last(), k);
        if i >= 0 {
            i
        } else if open.last().key == k {
            open.len() - 1
        } else {
            -1
        }
    }
}

/// One packet taken in: what is in flight afterwards, and the transaction it
/// completed. Non-ATP packets, requests and releases complete nothing.
pub open spec fn pushed(open: Seq<PartialView>, at: u64, b: BodyView) -> (
    Seq<PartialView>,
    Option<TransactionView>,
) {
    let left = expired(open, at);
    match response_in(b) {
        None => (left, None),
        Some((key, a)) => {
            let i = index_of_key(left, key);
            let p = (if i >= 0 {
                left[i]
            } else {
                PartialView::fresh(key, at)
            }).with(a);
            match p.complete() {
                Some(data) => (
                    if i >= 0 {
                        left.remove(i)
                    } else {
                        left
                    },
                    Some(TransactionView { key, user_bytes: p.user_bytes, data, at }),
                ),
                None => (
                    if i >= 0 {
                        left.update(i, p)
                    } else {
                        left.push(p)
                    },
                    None,
                ),
            }
        },
    }
}

/// Where a transaction stands.
pub proof fn lemma_index_of_key(open: Seq<PartialView>, k: TxnKey)
    ensures
        -1 <= index_of_key(open, k) < open.len(),
        index_of_key(open, k) >= 0 ==> open[index_of_key(open, k)].key == k,
        index_of_key(open, k) < 0 ==> forall|j: int|
            0 <= j < open.len() ==> (#[trigger] open[j]).key != k,
    decreases open.len(),
{
    if open.len() > 0 {
        let a = open.drop_last();
        lemma_index_of_key(a, k);
        if index_of_key(open, k) < 0 {
            assert forall|j: int| 0 <= j < open.len() implies (#[trigger] open[j]).key != k by {
                if j < a.len() {
                    assert(a[j] == open[j]);
                }
            }
        }
    }
}

/// What is found among the first ones is found among all.
proof fn lemma_index_of_key_from(open: Seq<PartialView>, k: TxnKey, n: int)
    requires
        0 <= n <= open.len(),
        index_of_key(open.take(n), k) >= 0,
    ensures
        index_of_key(open, k) == index_of_key(open.take(n), k),
    decreases open.len() - n,
{
    if n < open.len() {
        assert(open.take(n + 1).drop_last() =~= open.take(n));
        lemma_index_of_key_from(open, k, n + 1);
    } else {
        assert(open.take(n) =~= open);
    }
}

pub proof fn lemma_oldest(open: Seq<PartialView>)
    requires
        open.len() > 0,
    ensures
        0 <= oldest(open) < open.len(),
        forall|i: int|
            0 <= i < open.len() ==> open[oldest(open)].first_seen <= (
            #[trigger] open[i]).first_seen,
    decreases open.len(),
{
    if open.len() > 1 {
        let a = open.drop_last();
        lemma_oldest(a);
        assert forall|i: int| 0 <= i < open.len() implies open[oldest(open)].first_seen <= (
        #[trigger] open[i]).first_seen by {
            if i < a.len() {
                assert(a[i] == open[i]);
            }
        }
    }
}

pub struct Transactions {
    open: Vec<Partial>,
}

impl DeepView for Transactions {
    type V = Seq<PartialView>;

    closed spec fn deep_view(&self) -> Seq<PartialView> {
        self.open.deep_view()
    }
}

impl Transactions {
    pub fn new() -> (r: Transactions)
        ensures
            r.deep_view() == Seq::<PartialView>::empty(),
    {
        let r = Transactions { open: Vec::new() };
        assert(r.deep_view() =~= Seq::empty());
        r
    }

    /// Feeds one packet in. Returns a Transaction on the packet that completes
    /// it.
    pub fn push(&mut self, at: u64, p: &Packet) -> (r: Option<Transaction>)
        ensures
            (final(self).deep_view(), r.deep_view()) == pushed(
                old(self).deep_view(),
                at,
                p.deep_view().body,
            ),
    {
        self.expire(at);
        if let Body::Ddp(ddp, DdpBody::Atp(atp)) = &p.body {
            if atp.func != Func::Resp || atp.bitmap > 7 {
                return None;
            }
            return self.response(at, ddp, atp);
        }
        None
    }

    fn response(&mut self, at: u64, ddp: &Ddp, atp: &Atp) -> (r: Option<Transaction>)
        ensures
            ({
                let left = old(self).deep_view();
                let a = atp.deep_view();
                let key = key_of(ddp.deep_view(), a);
                let i = index_of_key(left, key);
                let p = (if i >= 0 {
                    left[i]
                } else {
                    PartialView::fresh(key, at)
                }).with(a);
                match p.complete() {
                    Some(data) => {
                        &&& final(self).deep_view() == (if i >= 0 {
                            left.remove(i)
                        } else {
                            left
                        })
                        &&& r.deep_view() == Some(
                            TransactionView { key, user_bytes: p.user_bytes, data, at },
                        )
                    },
                    None => {
                        &&& final(self).deep_view() == (if i >= 0 {
                            left.update(i, p)
                        } else {
                            left.push(p)
                        })
                        &&& r is None
                    },
                }
            }),
    {
        let key = TxnKey {
            src: ddp.src,
            src_socket: ddp.src_socket,
            dst: ddp.dst,
            dst_socket: ddp.dst_socket,
            tid: atp.tid,
        };
        let ghost left = self.deep_view();
        match self.find(key) {
            Some(i) => {
                self.open[i].take(atp);
                let ghost p = left[i as int].with(atp.deep_view());
                assert(self.open@[i as int].deep_view() == p);
                assert(self.open.deep_view() =~= left.update(i as int, p));
                match self.open[i].take_if_complete() {
                    Some(data) => {
                        let user_bytes = self.open[i].user_bytes;
                        self.open.remove(i);
                        assert(self.open.deep_view() =~= left.remove(i as int));
                        let t = Transaction { key, user_bytes, data, at };
                        assert(t.deep_view().user_bytes =~= p.user_bytes);
                        assert(t.deep_view().data =~= p.complete()->0);
                        Some(t)
                    },
                    None => None,
                }
            },
            None => {
                let mut p = Partial::new(key, at);
                p.take(atp);
                match p.take_if_complete() {
                    Some(data) => {
                        let ghost pv = p.deep_view();
                        let t = Transaction { key, user_bytes: p.user_bytes, data, at };
                        assert(t.deep_view().user_bytes =~= pv.user_bytes);
                        assert(t.deep_view().data =~= pv.complete()->0);
                        Some(t)
                    },
                    None => {
                        let ghost pv = p.deep_view();
                        assert(pv == PartialView::fresh(key, at).with(atp.deep_view()));
                        self.open.push(p);
                        assert(self.open.deep_view() =~= left.push(pv));
                        None
                    },
                }
            },
        }
    }

    fn find(&self, key: TxnKey) -> (r: Option<usize>)
        ensures
            match r {
                Some(i) => i < self.deep_view().len() && index_of_key(self.deep_view(), key) == i,
                None => index_of_key(self.deep_view(), key) == -1,
            },
            self.deep_view().len() == self.open@.len(),
    {
        let ghost v = self.deep_view();
        assert(v.take(0) =~= Seq::empty());
        let mut i: usize = 0;
        while i < self.open.len()
            invariant
                i <= self.open@.len(),
                v == self.deep_view(),
                v.len() == self.open@.len(),
                index_of_key(v.take(i as int), key) == -1,
            decreases self.open@.len() - i,
        {
            assert(v.take(i + 1).drop_last() =~= v.take(i as int));
            assert(v.take(i + 1).last() == self.open@[i as int].deep_view());
            if self.open[i].key == key {
                proof {
                    lemma_index_of_key_from(v, key, i + 1);
                }
                return Some(i);
            }
            i = i + 1;
        }
        assert(v.take(i as int) =~= v);
        None
    }

    /// Number of transactions still awaiting completion.
    pub fn open_count(&self) -> (r: usize)
        ensures
            r == self.deep_view().len(),
    {
        self.open.len()
    }

    /// Discards everything in flight. For when frames were dropped: nobody
    /// knows which, so any gap could have hit any transaction, and keeping them
    /// would silently produce a reassembled message with a hole in it.
    pub fn flush(&mut self)
        ensures
            final(self).deep_view() == Seq::<PartialView>::empty(),
    {
        self.open = Vec::new();
        assert(self.deep_view() =~= Seq::empty());
    }

    fn expire(&mut self, now: u64)
        ensures
            final(self).deep_view() == expired(old(self).deep_view(), now),
    {
        let ghost all = self.deep_view();
        let mut left: Vec<Partial> = Vec::new();
        left.append(&mut self.open);
        let mut kept: Vec<Partial> = Vec::new();
        let ghost mut done: int = 0;
        assert(all.take(0) =~= Seq::empty());
        assert(left.deep_view() =~= all.skip(0));
        assert(kept.deep_view() =~= Seq::empty());
        while left.len() > 0
            invariant
                0 <= done <= all.len(),
                left.deep_view() == all.skip(done),
                kept.deep_view() == fresh_ones(all.take(done), now),
            decreases left@.len(),
        {
            let ghost before = left.deep_view();
            assert(before.len() == left@.len());
            assert(before[0] == left@[0].deep_view());
            let p = left.remove(0);
            proof {
                assert(left.deep_view() =~= all.skip(done).drop_first());
                assert(all.skip(done).drop_first() =~= all.skip(done + 1));
                assert(all.take(done + 1).drop_last() =~= all.take(done));
                assert(all.take(done + 1).last() == p.deep_view());
                done = done + 1;
            }
            if elapsed(now, p.first_seen) < TXN_TIMEOUT {
                let ghost kv = kept.deep_view();
                let ghost pv = p.deep_view();
                kept.push(p);
                assert(kept.deep_view() =~= kv.push(pv));
            }
        }
        assert(left.deep_view().len() == 0);
        assert(all.take(done) =~= all);
        let ghost fresh = kept.deep_view();
        while kept.len() > MAX_OPEN - 1
            invariant
                trimmed(kept.deep_view(), (MAX_OPEN - 1) as nat) == trimmed(
                    fresh,
                    (MAX_OPEN - 1) as nat,
                ),
            decreases kept@.len(),
        {
            let ghost kv = kept.deep_view();
            assert(kv.len() == kept@.len());
            let i = oldest_of(&kept);
            kept.remove(i);
            assert(kept.deep_view() =~= kv.remove(i as int));
        }
        assert(kept.deep_view().len() == kept@.len());
        self.open = kept;
    }
}

/// Where the oldest transaction stands.
fn oldest_of(open: &Vec<Partial>) -> (r: usize)
    requires
        open@.len() > 0,
    ensures
        r < open@.len(),
        r == oldest(open.deep_view()),
{
    let ghost v = open.deep_view();
    let mut at: usize = 0;
    let mut i: usize = 1;
    while i < open.len()
        invariant
            1 <= i <= open@.len(),
            at < i,
            v == open.deep_view(),
            v.len() == open@.len(),
            at == oldest(v.take(i as int)),
        decreases open@.len() - i,
    {
        assert(v.take(i + 1).drop_last() =~= v.take(i as int));
        assert(v.take(i + 1).last() == open@[i as int].deep_view());
        assert(v.take(i + 1)[at as int] == open@[at as int].deep_view());
        if open[i].first_seen < open[at].first_seen {
            at = i;
        }
        i = i + 1;
    }
    assert(v.take(i as int) =~= v);
    at
}

// ------------------------------------------------------------------ messages

/// A message reassembled from several datagrams.
#[derive(Debug, PartialEq, Eq)]
pub enum Message {
    /// A completed ATP transaction on a connection whose protocol we never saw
    /// negotiated.
    Unclassified(Transaction),
    /// A completed ZIP GetMyZone / GetZoneList / GetLocalZones reply.
    Zip(ZipAtp),
}

/// A reassembled message, as data.
pub enum MessageView {
    Unclassified(TransactionView),
    Zip(ZipAtpView),
}

impl DeepView for Message {
    type V = MessageView;

    open spec fn deep_view(&self) -> MessageView {
        match self {
            Message::Unclassified(t) => MessageView::Unclassified(t.deep_view()),
            Message::Zip(z) => MessageView::Zip(z.deep_view()),
        }
    }
}

/// Bytes in hexadecimal, two digits each.
pub open spec fn hex_of(b: Seq<u8>) -> Seq<char>
    decreases b.len(),
{
    if b.len() == 0 {
        Seq::empty()
    } else {
        hex_of(b.drop_last()) + fmt::hex(b.last() as nat, 2)
    }
}

impl MessageView {
    /// A transaction from the Zone Information Socket that reads as a zone
    /// list is one.
    pub open spec fn of(t: TransactionView) -> MessageView {
        match ZipAtpView::parse_reply(t.user_bytes, t.data) {
            Some(z) => if t.key.src_socket == ZIS {
                MessageView::Zip(z)
            } else {
                MessageView::Unclassified(t)
            },
            None => MessageView::Unclassified(t),
        }
    }

    pub open spec fn text(self) -> Seq<char> {
        match self {
            MessageView::Unclassified(t) => "transaction "@ + fmt::dec(t.key.tid as nat)
                + " complete, "@ + fmt::dec(t.data.len()) + " bytes, user "@ + hex_of(t.user_bytes),
            MessageView::Zip(z) => "ZIP "@ + z.text(),
        }
    }
}

impl Message {
    pub fn to_string(&self) -> (r: String)
        ensures
            r@ == self.deep_view().text(),
    {
        match self {
            Message::Unclassified(t) => {
                let mut s = fmt::text("transaction ");
                fmt::push_dec(&mut s, t.key.tid as u64);
                fmt::push_text(&mut s, " complete, ");
                fmt::push_dec(&mut s, t.data.len() as u64);
                fmt::push_text(&mut s, " bytes, user ");
                let ghost head = s@;
                let ghost u = t.user_bytes@;
                assert(u.take(0) =~= Seq::empty());
                assert(head =~= head + hex_of(u.take(0)));
                let mut i: usize = 0;
                while i < 4
                    invariant
                        i <= 4,
                        u == t.user_bytes@,
                        u.len() == 4,
                        s@ == head + hex_of(u.take(i as int)),
                    decreases 4 - i,
                {
                    assert(u.take(i + 1).drop_last() =~= u.take(i as int));
                    fmt::push_hex(&mut s, t.user_bytes[i] as u64, 2);
                    i = i + 1;
                    assert(s@ =~= head + hex_of(u.take(i as int)));
                }
                assert(u.take(4) =~= u);
                assert(s@ =~= self.deep_view().text());
                s
            },
            Message::Zip(z) => {
                let mut s = fmt::text("ZIP ");
                let body = z.to_string();
                fmt::push_text(&mut s, body.as_str());
                s
            },
        }
    }
}

/// Owns every reassembler. The frontend drives it; it never spawns a thread.
pub struct Session {
    transactions: Transactions,
}

impl DeepView for Session {
    type V = Seq<PartialView>;

    closed spec fn deep_view(&self) -> Seq<PartialView> {
        self.transactions.deep_view()
    }
}

/// What a packet completes.
pub open spec fn messages(open: Seq<PartialView>, at: u64, b: BodyView) -> Seq<MessageView> {
    match pushed(open, at, b).1 {
        Some(t) => seq![MessageView::of(t)],
        None => Seq::empty(),
    }
}

impl Session {
    pub fn new() -> (r: Session)
        ensures
            r.deep_view() == Seq::<PartialView>::empty(),
    {
        Session { transactions: Transactions::new() }
    }

    pub fn push(&mut self, at: u64, p: &Packet) -> (r: Vec<Message>)
        ensures
            final(self).deep_view() == pushed(old(self).deep_view(), at, p.deep_view().body).0,
            r.deep_view() == messages(old(self).deep_view(), at, p.deep_view().body),
    {
        let mut out: Vec<Message> = Vec::new();
        assert(out.deep_view() =~= Seq::empty());
        if let Some(txn) = self.transactions.push(at, p) {
            let ghost tv = txn.deep_view();
            let zip = ZipAtp::parse_reply(&txn.user_bytes, txn.data.as_slice());
            // A response travels responder to requester, so the responder's
            // socket is the transaction's source socket.
            let m = match zip {
                Some(z) => if txn.key.src_socket == ZIS {
                    Message::Zip(z)
                } else {
                    Message::Unclassified(txn)
                },
                None => Message::Unclassified(txn),
            };
            let ghost mv = m.deep_view();
            assert(mv == MessageView::of(tv));
            out.push(m);
            assert(out.deep_view() =~= seq![mv]);
        }
        out
    }

    /// For when frames were dropped.
    pub fn flush(&mut self)
        ensures
            final(self).deep_view() == Seq::<PartialView>::empty(),
    {
        self.transactions.flush();
    }
}

// --------------------------------------------------------------------- laws

/// Law: a response that arrives twice is as good as once.
pub proof fn law_duplicates_are_idempotent(p: PartialView, a: AtpView)
    ensures
        p.with(a).with(a) == p.with(a),
{
    assert(p.with(a).with(a).segments =~= p.with(a).segments);
}

/// Law: two responses of different sequence numbers, of which at most one ends
/// the message, may arrive in either order.
pub proof fn law_order_of_arrival_does_not_matter(p: PartialView, a: AtpView, b: AtpView)
    requires
        a.bitmap != b.bitmap,
        !(eom_bit(a.control) && eom_bit(b.control)),
    ensures
        p.with(a).with(b) == p.with(b).with(a),
{
    assert(p.with(a).with(b).segments =~= p.with(b).with(a).segments);
}

/// No transaction stands twice among those in flight.
pub open spec fn apart(open: Seq<PartialView>) -> bool {
    forall|i: int, j: int|
        0 <= i < j < open.len() ==> (#[trigger] open[i]).key != (#[trigger] open[j]).key
}

/// The fresh ones are some of those in flight, in order.
proof fn lemma_fresh_ones(open: Seq<PartialView>, now: u64)
    requires
        apart(open),
    ensures
        apart(fresh_ones(open, now)),
        forall|i: int|
            0 <= i < fresh_ones(open, now).len() ==> open.contains(
                #[trigger] fresh_ones(open, now)[i],
            ),
        forall|i: int|
            0 <= i < fresh_ones(open, now).len() ==> since(
                now,
                (#[trigger] fresh_ones(open, now)[i]).first_seen,
            ) < TXN_TIMEOUT,
    decreases open.len(),
{
    if open.len() > 0 {
        let a = open.drop_last();
        assert forall|i: int, j: int| 0 <= i < j < a.len() implies (#[trigger] a[i]).key != (
        #[trigger] a[j]).key by {
            assert(a[i] == open[i] && a[j] == open[j]);
        }
        lemma_fresh_ones(a, now);
        let s = fresh_ones(a, now);
        let w = fresh_ones(open, now);
        assert forall|i: int| 0 <= i < w.len() implies open.contains(#[trigger] w[i]) by {
            if i < s.len() {
                assert(w[i] == s[i]);
                let k = choose|k: int| 0 <= k < a.len() && a[k] == s[i];
                assert(open[k] == w[i]);
            } else {
                assert(w[i] == open[open.len() - 1]);
            }
        }
        assert forall|i: int, j: int| 0 <= i < j < w.len() implies (#[trigger] w[i]).key != (
        #[trigger] w[j]).key by {
            assert(w[i] == s[i]);
            if j < s.len() {
                assert(w[j] == s[j]);
            } else {
                let k = choose|k: int| 0 <= k < a.len() && a[k] == s[i];
                assert(open[k].key != open[open.len() - 1].key);
            }
        }
    }
}

/// Trimming leaves some of those in flight, and no more than there may be.
proof fn lemma_trimmed(open: Seq<PartialView>, n: nat)
    requires
        apart(open),
    ensures
        apart(trimmed(open, n)),
        trimmed(open, n).len() <= n || trimmed(open, n).len() == 0,
        trimmed(open, n).len() <= open.len(),
    decreases open.len(),
{
    if open.len() > n && open.len() > 0 {
        lemma_oldest(open);
        let r = open.remove(oldest(open));
        assert forall|i: int, j: int| 0 <= i < j < r.len() implies (#[trigger] r[i]).key != (
        #[trigger] r[j]).key by {
            let x = if i < oldest(open) {
                i
            } else {
                i + 1
            };
            let y = if j < oldest(open) {
                j
            } else {
                j + 1
            };
            assert(r[i] == open[x] && r[j] == open[y]);
        }
        lemma_trimmed(r, n);
    }
}

/// Law: whatever arrives, no transaction stands twice among those in flight,
/// and there are never more of them than `MAX_OPEN`.
pub proof fn law_push_keeps(open: Seq<PartialView>, at: u64, b: BodyView)
    requires
        apart(open),
    ensures
        apart(pushed(open, at, b).0),
        pushed(open, at, b).0.len() <= MAX_OPEN,
{
    lemma_fresh_ones(open, at);
    lemma_trimmed(fresh_ones(open, at), (MAX_OPEN - 1) as nat);
    let left = expired(open, at);
    match response_in(b) {
        None => {},
        Some((key, a)) => {
            lemma_index_of_key(left, key);
            let i = index_of_key(left, key);
            let n = pushed(open, at, b).0;
            assert forall|x: int, y: int| 0 <= x < y < n.len() implies (#[trigger] n[x]).key != (
            #[trigger] n[y]).key by {
                if i >= 0 && n.len() < left.len() {
                    let p = if x < i {
                        x
                    } else {
                        x + 1
                    };
                    let q = if y < i {
                        y
                    } else {
                        y + 1
                    };
                    assert(n[x] == left[p] && n[y] == left[q]);
                } else if i >= 0 {
                    assert(n[x].key == left[x].key && n[y].key == left[y].key);
                } else {
                    assert(n[x] == left[x]);
                    if y < left.len() {
                        assert(n[y] == left[y]);
                    }
                }
            }
        },
    }
}

/// Law: a completed message is the segments from 0 to the one that ended it,
/// in that order. Its user bytes are those that came with segment 0: the
/// packet's own where that is segment 0, and otherwise those kept beside it.
pub proof fn law_messages_are_whole(open: Seq<PartialView>, at: u64, b: BodyView)
    requires
        pushed(open, at, b).1 is Some,
    ensures
        ({
            let t = pushed(open, at, b).1->0;
            let (key, a) = response_in(b)->0;
            let left = expired(open, at);
            let i = index_of_key(left, key);
            let q = if i >= 0 {
                left[i]
            } else {
                PartialView::fresh(key, at)
            };
            let p = q.with(a);
            &&& t.key == key
            &&& p.last is Some
            &&& joined(p.segments, (p.last->0 + 1) as nat) == Some(t.data)
            &&& t.user_bytes == p.user_bytes
            &&& p.segments.contains_key(0)
            &&& a.bitmap == 0 ==> p.segments[0] == a.data && t.user_bytes == a.user_bytes
            &&& a.bitmap != 0 ==> q.segments.contains_key(0) && p.segments[0] == q.segments[0]
                && t.user_bytes == q.user_bytes
        }),
{
    let (key, a) = response_in(b)->0;
    let left = expired(open, at);
    let i = index_of_key(left, key);
    let p = (if i >= 0 {
        left[i]
    } else {
        PartialView::fresh(key, at)
    }).with(a);
    let n = (p.last->0 + 1) as nat;
    if !p.segments.contains_key(0) {
        reveal_with_fuel(joined, 2);
        assert(joined(p.segments, 1) is None);
        lemma_joined_stops(p.segments, 1, n);
    }
}

// ----------------------------------------------------------------- whole series

/// A packet and when it came.
pub struct Arrival {
    pub at: u64,
    pub body: BodyView,
}

/// What is in flight after a run of packets, and what each of them completed.
pub open spec fn pushed_all(open: Seq<PartialView>, arrivals: Seq<Arrival>) -> (
    Seq<PartialView>,
    Seq<Option<TransactionView>>,
)
    decreases arrivals.len(),
{
    if arrivals.len() == 0 {
        (open, Seq::empty())
    } else {
        let (before, done) = pushed_all(open, arrivals.drop_last());
        let (after, t) = pushed(before, arrivals.last().at, arrivals.last().body);
        (after, done.push(t))
    }
}

/// The responses of one transaction: numbered from 0, eight at most, the last
/// of them marked as such and no other.
pub open spec fn is_series(ms: Seq<AtpView>) -> bool {
    &&& 1 <= ms.len() <= 8
    &&& forall|i: int|
        0 <= i < ms.len() ==> (#[trigger] ms[i]).bitmap == i && eom_bit(ms[i].control) == (i
            == ms.len() - 1)
}

/// Packets that are responses of a series, `which` saying which one each is,
/// and that all come before the first of them is too old.
pub open spec fn carry(
    arrivals: Seq<Arrival>,
    which: Seq<int>,
    key: TxnKey,
    ms: Seq<AtpView>,
) -> bool {
    &&& arrivals.len() == which.len()
    &&& forall|j: int|
        0 <= j < which.len() ==> 0 <= #[trigger] which[j] < ms.len() && response_in(
            arrivals[j].body,
        ) == Some((key, ms[which[j]])) && since(arrivals[j].at, arrivals[0].at) < TXN_TIMEOUT
}

/// Whether every response of a series of `n` has come.
pub open spec fn all_there(which: Seq<int>, n: nat) -> bool {
    forall|i: int| 0 <= i < n ==> #[trigger] which.contains(i)
}

/// The payloads of the first `n` responses, in sequence order.
pub open spec fn payloads(ms: Seq<AtpView>, n: nat) -> Seq<u8>
    decreases n,
{
    if n == 0 {
        Seq::empty()
    } else {
        payloads(ms, (n - 1) as nat) + ms[n - 1].data
    }
}

/// A transaction that holds exactly the responses in `which`.
pub open spec fn holds_exactly(
    p: PartialView,
    which: Seq<int>,
    key: TxnKey,
    ms: Seq<AtpView>,
    first_seen: u64,
) -> bool {
    &&& p.key == key
    &&& p.first_seen == first_seen
    &&& forall|k: u8| #[trigger] p.segments.contains_key(k) <==> which.contains(k as int)
    &&& forall|k: u8| #[trigger] p.segments.contains_key(k) ==> p.segments[k] == ms[k as int].data
    &&& p.last == (if which.contains(ms.len() - 1) {
        Some((ms.len() - 1) as u8)
    } else {
        None
    })
    &&& which.contains(0) ==> p.user_bytes == ms[0].user_bytes
}

proof fn lemma_joined_holds(
    p: PartialView,
    which: Seq<int>,
    key: TxnKey,
    ms: Seq<AtpView>,
    first_seen: u64,
    n: nat,
)
    requires
        is_series(ms),
        holds_exactly(p, which, key, ms, first_seen),
        n <= ms.len(),
    ensures
        all_there(which, n) ==> joined(p.segments, n) == Some(payloads(ms, n)),
        !all_there(which, n) ==> joined(p.segments, n) is None,
    decreases n,
{
    if n > 0 {
        let m = (n - 1) as nat;
        lemma_joined_holds(p, which, key, ms, first_seen, m);
        let k = m as u8;
        assert(p.segments.contains_key(k) <==> which.contains(k as int));
        if all_there(which, n) {
            assert(which.contains(m as int));
            assert(all_there(which, m));
        } else if all_there(which, m) {
            assert(!which.contains(m as int)) by {
                if which.contains(m as int) {
                    assert forall|i: int| 0 <= i < n implies #[trigger] which.contains(i) by {
                        if i < m {
                            assert(which.contains(i));
                        }
                    }
                }
            }
        }
    }
}

/// One more response of the series.
proof fn lemma_holds_one_more(
    p: PartialView,
    which: Seq<int>,
    key: TxnKey,
    ms: Seq<AtpView>,
    first_seen: u64,
    w: int,
)
    requires
        is_series(ms),
        holds_exactly(p, which, key, ms, first_seen),
        0 <= w < ms.len(),
    ensures
        holds_exactly(p.with(ms[w]), which.push(w), key, ms, first_seen),
{
    let q = p.with(ms[w]);
    let v = which.push(w);
    assert(ms[w].bitmap == w);
    assert forall|i: int| v.contains(i) == (which.contains(i) || i == w) by {
        if which.contains(i) {
            let j = choose|j: int| 0 <= j < which.len() && which[j] == i;
            assert(v[j] == i);
        }
        assert(v[which.len() as int] == w);
        if v.contains(i) && i != w {
            let j = choose|j: int| 0 <= j < v.len() && v[j] == i;
            assert(which[j] == i);
        }
    }
    assert forall|k: u8| #[trigger] q.segments.contains_key(k) implies q.segments[k]
        == ms[k as int].data by {
        if k as int != w {
            assert(p.segments.contains_key(k));
        }
    }
    assert forall|k: u8| #[trigger] q.segments.contains_key(k) <==> v.contains(k as int) by {
        assert(p.segments.contains_key(k) <==> which.contains(k as int));
    }
}

/// Until every response has come, the packets complete nothing, and what is in
/// flight is what they brought.
proof fn lemma_unfinished(
    arrivals: Seq<Arrival>,
    which: Seq<int>,
    key: TxnKey,
    ms: Seq<AtpView>,
)
    requires
        is_series(ms),
        carry(arrivals, which, key, ms),
        !all_there(which, ms.len()),
    ensures
        ({
            let (open, done) = pushed_all(Seq::empty(), arrivals);
            &&& done.len() == arrivals.len()
            &&& forall|j: int| 0 <= j < done.len() ==> (#[trigger] done[j]) is None
            &&& arrivals.len() == 0 ==> open.len() == 0
            &&& arrivals.len() > 0 ==> open.len() == 1 && holds_exactly(
                open[0],
                which,
                key,
                ms,
                arrivals[0].at,
            )
        }),
    decreases arrivals.len(),
{
    if arrivals.len() > 0 {
        let a = arrivals.drop_last();
        let v = which.drop_last();
        lemma_prefix(arrivals, which, key, ms);
        lemma_unfinished(a, v, key, ms);
        lemma_next(arrivals, which, key, ms);
        lemma_joined_holds(
            next_partial(arrivals, key),
            which,
            key,
            ms,
            arrivals[0].at,
            ms.len(),
        );
    }
}

/// All but the last packet of a run.
proof fn lemma_prefix(arrivals: Seq<Arrival>, which: Seq<int>, key: TxnKey, ms: Seq<AtpView>)
    requires
        carry(arrivals, which, key, ms),
        arrivals.len() > 0,
    ensures
        carry(arrivals.drop_last(), which.drop_last(), key, ms),
        !all_there(which, ms.len()) ==> !all_there(which.drop_last(), ms.len()),
{
    let a = arrivals.drop_last();
    let v = which.drop_last();
    assert forall|j: int| 0 <= j < v.len() implies 0 <= #[trigger] v[j] < ms.len() && response_in(
        a[j].body,
    ) == Some((key, ms[v[j]])) && since(a[j].at, a[0].at) < TXN_TIMEOUT by {
        assert(v[j] == which[j]);
        assert(a[j] == arrivals[j] && a[0] == arrivals[0]);
    }
    if all_there(v, ms.len()) {
        assert forall|i: int| 0 <= i < ms.len() implies #[trigger] which.contains(i) by {
            assert(v.contains(i));
            let j = choose|j: int| 0 <= j < v.len() && v[j] == i;
            assert(which[j] == i);
        }
    }
}

/// The transaction a run leaves, its last packet taken in.
pub open spec fn next_partial(arrivals: Seq<Arrival>, key: TxnKey) -> PartialView {
    let open = pushed_all(Seq::empty(), arrivals.drop_last()).0;
    let (_, a) = response_in(arrivals.last().body)->0;
    (if open.len() == 0 {
        PartialView::fresh(key, arrivals.last().at)
    } else {
        open[0]
    }).with(a)
}

proof fn lemma_next(arrivals: Seq<Arrival>, which: Seq<int>, key: TxnKey, ms: Seq<AtpView>)
    requires
        is_series(ms),
        carry(arrivals, which, key, ms),
        arrivals.len() > 0,
        ({
            let (open, done) = pushed_all(Seq::empty(), arrivals.drop_last());
            &&& arrivals.len() == 1 ==> open.len() == 0
            &&& arrivals.len() > 1 ==> open.len() == 1 && holds_exactly(
                open[0],
                which.drop_last(),
                key,
                ms,
                arrivals[0].at,
            )
        }),
    ensures
        ({
            let open = pushed_all(Seq::empty(), arrivals.drop_last()).0;
            let p = next_partial(arrivals, key);
            let last = arrivals.last();
            &&& holds_exactly(p, which, key, ms, arrivals[0].at)
            &&& pushed(open, last.at, last.body) == (match p.complete() {
                Some(data) => (
                    Seq::<PartialView>::empty(),
                    Some(TransactionView { key, user_bytes: p.user_bytes, data, at: last.at }),
                ),
                None => (seq![p], None),
            })
        }),
{
    let open = pushed_all(Seq::empty(), arrivals.drop_last()).0;
    let n = arrivals.len() - 1;
    let last = arrivals.last();
    let w = which[n];
    let v = which.drop_last();
    assert(v.push(w) =~= which);
    assert(response_in(arrivals[n].body) == Some((key, ms[w])));
    reveal_with_fuel(fresh_ones, 2);
    reveal_with_fuel(index_of_key, 2);
    if n == 0 {
        assert(open =~= Seq::empty());
        let p = PartialView::fresh(key, last.at);
        assert(v =~= Seq::empty());
        assert(holds_exactly(p, v, key, ms, last.at));
        lemma_holds_one_more(p, v, key, ms, last.at, w);
        assert(expired(open, last.at) =~= Seq::empty());
        assert(Seq::<PartialView>::empty().push(p.with(ms[w])) =~= seq![p.with(ms[w])]);
    } else {
        let p = open[0];
        lemma_holds_one_more(p, v, key, ms, arrivals[0].at, w);
        assert(open.drop_last() =~= Seq::empty());
        assert(since(arrivals[n].at, arrivals[0].at) < TXN_TIMEOUT);
        assert(fresh_ones(open, last.at) =~= open);
        assert(expired(open, last.at) =~= open);
        assert(index_of_key(open, key) == 0);
        assert(open.remove(0) =~= Seq::empty());
        assert(open.update(0, p.with(ms[w])) =~= seq![p.with(ms[w])]);
    }
}

/// Law: the responses of a transaction may come in any order, each any number
/// of times. The packet that brings the last one missing completes it, and no
/// packet before that completes anything; the data is the payloads in sequence
/// order, the user bytes are those of response 0, the time is that of the
/// completing packet, and nothing is left in flight.
pub proof fn law_a_series_completes_once(
    arrivals: Seq<Arrival>,
    which: Seq<int>,
    key: TxnKey,
    ms: Seq<AtpView>,
)
    requires
        is_series(ms),
        carry(arrivals, which, key, ms),
        arrivals.len() > 0,
        all_there(which, ms.len()),
        !all_there(which.drop_last(), ms.len()),
    ensures
        ({
            let (open, done) = pushed_all(Seq::empty(), arrivals);
            &&& open.len() == 0
            &&& done.len() == arrivals.len()
            &&& forall|j: int| 0 <= j < done.len() - 1 ==> (#[trigger] done[j]) is None
            &&& done.last() == Some(
                TransactionView {
                    key,
                    user_bytes: ms[0].user_bytes,
                    data: payloads(ms, ms.len()),
                    at: arrivals.last().at,
                },
            )
        }),
{
    let a = arrivals.drop_last();
    let v = which.drop_last();
    lemma_prefix(arrivals, which, key, ms);
    lemma_unfinished(a, v, key, ms);
    lemma_next(arrivals, which, key, ms);
    let p = next_partial(arrivals, key);
    lemma_joined_holds(p, which, key, ms, arrivals[0].at, ms.len());
    assert(which.contains(ms.len() - 1));
    assert(which.contains(0));
    let (before, done) = pushed_all(Seq::empty(), a);
    let t = pushed(before, arrivals.last().at, arrivals.last().body).1;
    assert(pushed_all(Seq::empty(), arrivals).1 == done.push(t));
}

/// Law: a transaction that misses a response is never completed, whatever came
/// of the others and however often.
pub proof fn law_a_gap_completes_nothing(
    arrivals: Seq<Arrival>,
    which: Seq<int>,
    key: TxnKey,
    ms: Seq<AtpView>,
)
    requires
        is_series(ms),
        carry(arrivals, which, key, ms),
        !all_there(which, ms.len()),
    ensures
        forall|j: int|
            0 <= j < arrivals.len() ==> (#[trigger] pushed_all(Seq::empty(), arrivals).1[j]) is None,
{
    lemma_unfinished(arrivals, which, key, ms);
}

// --------------------------------------------------------- among other traffic

/// Law: a packet touches the transaction it belongs to and no other: each that
/// is still in flight when it comes stands afterwards as it was, and none that
/// was not there has come.
pub proof fn law_other_transactions_are_untouched(
    open: Seq<PartialView>,
    at: u64,
    b: BodyView,
    p: PartialView,
)
    requires
        match response_in(b) {
            Some((key, _)) => p.key != key,
            None => true,
        },
    ensures
        pushed(open, at, b).0.contains(p) == expired(open, at).contains(p),
{
    let left = expired(open, at);
    let after = pushed(open, at, b).0;
    if let Some((key, a)) = response_in(b) {
        lemma_index_of_key(left, key);
        let i = index_of_key(left, key);
        if left.contains(p) {
            let j = choose|j: int| 0 <= j < left.len() && left[j] == p;
            if after.len() < left.len() {
                assert(after[if j < i {
                    j
                } else {
                    j - 1
                }] == p);
            } else {
                assert(after[j] == p);
            }
        }
        if after.contains(p) {
            let j = choose|j: int| 0 <= j < after.len() && after[j] == p;
            if after.len() < left.len() {
                assert(left[if j < i {
                    j
                } else {
                    j + 1
                }] == p);
            } else {
                assert(left[j] == p);
            }
        }
    }
}

/// The responses among packets, `which` saying of each which one it is, if it
/// is one.
pub open spec fn seen(which: Seq<Option<int>>) -> Seq<int>
    decreases which.len(),
{
    if which.len() == 0 {
        Seq::empty()
    } else {
        match which.last() {
            Some(w) => seen(which.drop_last()).push(w),
            None => seen(which.drop_last()),
        }
    }
}

/// When the first response came.
pub open spec fn begun(arrivals: Seq<Arrival>, which: Seq<Option<int>>) -> u64
    decreases arrivals.len(),
{
    if arrivals.len() == 0 {
        0
    } else if seen(which.drop_last()).len() == 0 {
        arrivals.last().at
    } else {
        begun(arrivals.drop_last(), which.drop_last())
    }
}

/// Responses of a series among packets that have nothing to do with it, none of
/// which comes when the first response is too old.
pub open spec fn mingled(
    arrivals: Seq<Arrival>,
    which: Seq<Option<int>>,
    key: TxnKey,
    ms: Seq<AtpView>,
) -> bool
    decreases arrivals.len(),
{
    &&& arrivals.len() == which.len()
    &&& arrivals.len() > 0 ==> {
        let a = arrivals.drop_last();
        let v = which.drop_last();
        &&& mingled(a, v, key, ms)
        &&& match which.last() {
            Some(w) => 0 <= w < ms.len() && response_in(arrivals.last().body) == Some(
                (key, ms[w]),
            ),
            None => match response_in(arrivals.last().body) {
                Some((k, _)) => k != key,
                None => true,
            },
        }
        &&& seen(v).len() > 0 ==> since(arrivals.last().at, begun(a, v)) < TXN_TIMEOUT
    }
}

/// There is room for each packet when it comes, so that nothing in flight has
/// to make way for it.
pub open spec fn roomy(open: Seq<PartialView>, arrivals: Seq<Arrival>) -> bool
    decreases arrivals.len(),
{
    arrivals.len() > 0 ==> {
        let a = arrivals.drop_last();
        &&& roomy(open, a)
        &&& fresh_ones(pushed_all(open, a).0, arrivals.last().at).len() < MAX_OPEN
    }
}

/// No transaction of that key is in flight.
pub open spec fn absent(open: Seq<PartialView>, key: TxnKey) -> bool {
    forall|i: int| 0 <= i < open.len() ==> (#[trigger] open[i]).key != key
}

/// What is in flight of a series while it is unfinished.
pub open spec fn under_way(
    open: Seq<PartialView>,
    got: Seq<int>,
    key: TxnKey,
    ms: Seq<AtpView>,
    since_when: u64,
) -> bool {
    let i = index_of_key(open, key);
    if got.len() == 0 {
        absent(open, key)
    } else {
        i >= 0 && holds_exactly(open[i], got, key, ms, since_when)
    }
}

/// The one transaction of a key is found.
proof fn lemma_found(open: Seq<PartialView>, p: PartialView)
    requires
        apart(open),
        open.contains(p),
    ensures
        index_of_key(open, p.key) >= 0,
        open[index_of_key(open, p.key)] == p,
{
    lemma_index_of_key(open, p.key);
    let i = index_of_key(open, p.key);
    let j = choose|j: int| 0 <= j < open.len() && open[j] == p;
    assert(open[j].key == p.key);
    if i < j {
        assert(open[i].key != open[j].key);
    } else if j < i {
        assert(open[j].key != open[i].key);
    }
}

/// What is not too old stays.
proof fn lemma_stays_fresh(open: Seq<PartialView>, now: u64, p: PartialView)
    requires
        open.contains(p),
        since(now, p.first_seen) < TXN_TIMEOUT,
    ensures
        fresh_ones(open, now).contains(p),
    decreases open.len(),
{
    let a = open.drop_last();
    let w = fresh_ones(open, now);
    let j = choose|j: int| 0 <= j < open.len() && open[j] == p;
    if j == open.len() - 1 {
        assert(w[w.len() - 1] == p);
    } else {
        assert(a[j] == p);
        lemma_stays_fresh(a, now, p);
        let s = fresh_ones(a, now);
        let k = choose|k: int| 0 <= k < s.len() && s[k] == p;
        assert(w[k] == p);
    }
}

/// A series under way is not touched by the clock.
proof fn lemma_clock_keeps(
    open: Seq<PartialView>,
    now: u64,
    got: Seq<int>,
    key: TxnKey,
    ms: Seq<AtpView>,
    since_when: u64,
)
    requires
        apart(open),
        under_way(open, got, key, ms, since_when),
        fresh_ones(open, now).len() < MAX_OPEN,
        got.len() > 0 ==> since(now, since_when) < TXN_TIMEOUT,
    ensures
        apart(expired(open, now)),
        under_way(expired(open, now), got, key, ms, since_when),
        got.len() > 0 ==> expired(open, now)[index_of_key(expired(open, now), key)]
            == open[index_of_key(open, key)],
{
    let left = expired(open, now);
    lemma_fresh_ones(open, now);
    assert(left == fresh_ones(open, now));
    lemma_index_of_key(open, key);
    if got.len() == 0 {
        assert forall|i: int| 0 <= i < left.len() implies (#[trigger] left[i]).key != key by {
            let k = choose|k: int| 0 <= k < open.len() && open[k] == left[i];
            assert(open[k].key != key);
        }
    } else {
        let p = open[index_of_key(open, key)];
        assert(open.contains(p));
        lemma_stays_fresh(open, now, p);
        lemma_found(left, p);
    }
}

/// Among other traffic, a series that is unfinished completes nothing.
proof fn lemma_mingled_unfinished(
    open: Seq<PartialView>,
    arrivals: Seq<Arrival>,
    which: Seq<Option<int>>,
    key: TxnKey,
    ms: Seq<AtpView>,
)
    requires
        is_series(ms),
        apart(open),
        absent(open, key),
        mingled(arrivals, which, key, ms),
        roomy(open, arrivals),
        !all_there(seen(which), ms.len()),
    ensures
        ({
            let (after, done) = pushed_all(open, arrivals);
            &&& apart(after)
            &&& done.len() == arrivals.len()
            &&& under_way(after, seen(which), key, ms, begun(arrivals, which))
            &&& forall|j: int|
                0 <= j < done.len() ==> ((#[trigger] done[j]) matches Some(t) ==> t.key != key)
        }),
    decreases arrivals.len(),
{
    if arrivals.len() > 0 {
        let a = arrivals.drop_last();
        let v = which.drop_last();
        if all_there(seen(v), ms.len()) {
            lemma_seen_grows(which, ms.len());
        }
        lemma_mingled_unfinished(open, a, v, key, ms);
        lemma_mingled_next(open, arrivals, which, key, ms);
        let (before, done) = pushed_all(open, a);
        let last = arrivals.last();
        let (after, t) = pushed(before, last.at, last.body);
        law_push_keeps(before, last.at, last.body);
        assert(pushed_all(open, arrivals).1 == done.push(t));
    }
}

/// What was seen is seen with one packet more.
proof fn lemma_seen_grows(which: Seq<Option<int>>, n: nat)
    requires
        which.len() > 0,
        all_there(seen(which.drop_last()), n),
    ensures
        all_there(seen(which), n),
{
    let b = seen(which.drop_last());
    let s = seen(which);
    assert forall|i: int| 0 <= i < n implies #[trigger] s.contains(i) by {
        assert(b.contains(i));
        let j = choose|j: int| 0 <= j < b.len() && b[j] == i;
        assert(s[j] == i);
    }
}

/// One packet more: it leaves the series under way, or completes it.
proof fn lemma_mingled_next(
    open: Seq<PartialView>,
    arrivals: Seq<Arrival>,
    which: Seq<Option<int>>,
    key: TxnKey,
    ms: Seq<AtpView>,
)
    requires
        is_series(ms),
        arrivals.len() > 0,
        mingled(arrivals, which, key, ms),
        roomy(open, arrivals),
        apart(pushed_all(open, arrivals.drop_last()).0),
        under_way(
            pushed_all(open, arrivals.drop_last()).0,
            seen(which.drop_last()),
            key,
            ms,
            begun(arrivals.drop_last(), which.drop_last()),
        ),
    ensures
        ({
            let last = arrivals.last();
            let (after, t) = pushed(
                pushed_all(open, arrivals.drop_last()).0,
                last.at,
                last.body,
            );
            &&& which.last() is None ==> (t matches Some(u) ==> u.key != key)
            &&& !all_there(seen(which), ms.len()) || which.last() is None ==> under_way(
                after,
                seen(which),
                key,
                ms,
                begun(arrivals, which),
            )
            &&& which.last() is Some && !all_there(seen(which), ms.len()) ==> t is None
            &&& which.last() is Some && all_there(seen(which), ms.len()) ==> absent(after, key)
                && t == Some(
                TransactionView {
                    key,
                    user_bytes: ms[0].user_bytes,
                    data: payloads(ms, ms.len()),
                    at: last.at,
                },
            )
        }),
{
    let a = arrivals.drop_last();
    let v = which.drop_last();
    let before = pushed_all(open, a).0;
    let got = seen(v);
    let when = begun(a, v);
    let last = arrivals.last();
    let left = expired(before, last.at);
    lemma_clock_keeps(before, last.at, got, key, ms, when);
    lemma_index_of_key(left, key);
    law_push_keeps(before, last.at, last.body);
    let (after, t) = pushed(before, last.at, last.body);
    lemma_index_of_key(after, key);
    let i = index_of_key(left, key);
    match which.last() {
        None => {
            if got.len() == 0 {
                assert forall|j: int| 0 <= j < after.len() implies (#[trigger] after[j]).key
                    != key by {
                    if after[j].key == key {
                        law_other_transactions_are_untouched(before, last.at, last.body, after[j]);
                        assert(after.contains(after[j]));
                        let k = choose|k: int| 0 <= k < left.len() && left[k] == after[j];
                        assert(left[k].key != key);
                    }
                }
            } else {
                let p = left[i];
                law_other_transactions_are_untouched(before, last.at, last.body, p);
                assert(left.contains(p));
                lemma_found(after, p);
            }
        },
        Some(w) => {
            let m = ms[w];
            let q = if i >= 0 {
                left[i]
            } else {
                PartialView::fresh(key, last.at)
            };
            let first = begun(arrivals, which);
            if got.len() == 0 {
                assert(i < 0);
                assert(got =~= Seq::empty());
                assert(holds_exactly(q, got, key, ms, first));
            }
            lemma_holds_one_more(q, got, key, ms, first, w);
            let p = q.with(m);
            let now = seen(which);
            assert(now == got.push(w));
            lemma_joined_holds(p, now, key, ms, first, ms.len());
            if all_there(now, ms.len()) {
                assert(now.contains(ms.len() - 1));
                assert(now.contains(0));
                assert forall|j: int| 0 <= j < after.len() implies (#[trigger] after[j]).key
                    != key by {
                    if i >= 0 {
                        let k = if j < i {
                            j
                        } else {
                            j + 1
                        };
                        assert(after[j] == left[k]);
                        if k < i {
                            assert(left[k].key != left[i].key);
                        } else {
                            assert(left[i].key != left[k].key);
                        }
                    } else {
                        assert(after[j] == left[j]);
                    }
                }
            } else {
                assert(p.complete() is None);
                assert(p.key == key);
                if i >= 0 {
                    assert(after[i] == p);
                } else {
                    assert(after[left.len() as int] == p);
                }
                assert(after.contains(p));
                lemma_found(after, p);
            }
        },
    }
}

/// Law: transactions do not mix. The responses of one may come in any order and
/// any number of times among packets of others, and whatever is in flight
/// beside them: none before the last one missing completes it, and that one
/// completes it as if it had been alone, so long as there is room for all that
/// is in flight.
pub proof fn law_a_series_completes_among_others(
    open: Seq<PartialView>,
    arrivals: Seq<Arrival>,
    which: Seq<Option<int>>,
    key: TxnKey,
    ms: Seq<AtpView>,
)
    requires
        is_series(ms),
        apart(open),
        absent(open, key),
        mingled(arrivals, which, key, ms),
        roomy(open, arrivals),
        arrivals.len() > 0,
        which.last() is Some,
        all_there(seen(which), ms.len()),
        !all_there(seen(which.drop_last()), ms.len()),
    ensures
        ({
            let (after, done) = pushed_all(open, arrivals);
            &&& absent(after, key)
            &&& done.len() == arrivals.len()
            &&& forall|j: int|
                0 <= j < done.len() - 1 ==> ((#[trigger] done[j]) matches Some(t) ==> t.key != key)
            &&& done.last() == Some(
                TransactionView {
                    key,
                    user_bytes: ms[0].user_bytes,
                    data: payloads(ms, ms.len()),
                    at: arrivals.last().at,
                },
            )
        }),
{
    let a = arrivals.drop_last();
    let v = which.drop_last();
    lemma_mingled_unfinished(open, a, v, key, ms);
    lemma_mingled_next(open, arrivals, which, key, ms);
    let (before, done) = pushed_all(open, a);
    let t = pushed(before, arrivals.last().at, arrivals.last().body).1;
    assert(pushed_all(open, arrivals).1 == done.push(t));
}

// --------------------------------------------------------- said of the packets

/// Law: a packet that carries an ATP response numbered from 0 to 7 belongs to
/// the transaction of its source and destination, their sockets and its ID, and
/// is taken in; no other packet is.
pub proof fn law_responses_belong_to_their_transaction(b: BodyView)
    ensures
        b matches BodyView::Ddp(d, DdpBodyView::Atp(a)) ==> {
            let key = TxnKey {
                src: d.src,
                src_socket: d.src_socket,
                dst: d.dst,
                dst_socket: d.dst_socket,
                tid: a.tid,
            };
            &&& a.func == Func::Resp && a.bitmap <= 7 ==> response_in(b) == Some((key, a))
            &&& a.func != Func::Resp || a.bitmap > 7 ==> response_in(b) is None
        },
        !(b matches BodyView::Ddp(_, DdpBodyView::Atp(_))) ==> response_in(b) is None,
{
}

/// A packet that is a given ATP response between two sockets.
pub open spec fn is_response(b: BodyView, key: TxnKey, a: AtpView) -> bool {
    b matches BodyView::Ddp(d, DdpBodyView::Atp(x)) && x == a && d.src == key.src && d.src_socket
        == key.src_socket && d.dst == key.dst && d.dst_socket == key.dst_socket && a.tid == key.tid
}

/// Law: one to eight responses of a transaction, numbered from 0, the last one
/// marked as the end of the message, that come in any order and any number of
/// times in less than thirty seconds, are put together: the packet that brings
/// the last one missing gives the transaction, its payloads in order, and none
/// before it gives anything.
pub proof fn law_packets_are_put_together(
    arrivals: Seq<Arrival>,
    which: Seq<int>,
    key: TxnKey,
    ms: Seq<AtpView>,
)
    requires
        1 <= ms.len() <= 8,
        forall|i: int|
            0 <= i < ms.len() ==> (#[trigger] ms[i]).func == Func::Resp && ms[i].bitmap == i && ((
            ms[i].control / 16) % 2 == 1) == (i == ms.len() - 1),
        arrivals.len() == which.len(),
        arrivals.len() > 0,
        forall|j: int|
            0 <= j < which.len() ==> 0 <= #[trigger] which[j] < ms.len() && is_response(
                arrivals[j].body,
                key,
                ms[which[j]],
            ) && arrivals[j].at - arrivals[0].at < 30000,
        forall|i: int| 0 <= i < ms.len() ==> #[trigger] which.contains(i),
        exists|i: int| 0 <= i < ms.len() && !(#[trigger] which.drop_last().contains(i)),
    ensures
        ({
            let (open, done) = pushed_all(Seq::empty(), arrivals);
            &&& open.len() == 0
            &&& done.len() == arrivals.len()
            &&& forall|j: int| 0 <= j < done.len() - 1 ==> (#[trigger] done[j]) is None
            &&& done.last() matches Some(t) && t.key == key && t.user_bytes == ms[0].user_bytes
                && t.at == arrivals.last().at && t.data == payloads(ms, ms.len())
        }),
{
    assert forall|i: int| 0 <= i < ms.len() implies (#[trigger] ms[i]).bitmap == i && eom_bit(
        ms[i].control,
    ) == (i == ms.len() - 1) by {}
    assert forall|j: int| 0 <= j < which.len() implies 0 <= #[trigger] which[j] < ms.len()
        && response_in(arrivals[j].body) == Some((key, ms[which[j]])) && since(
        arrivals[j].at,
        arrivals[0].at,
    ) < TXN_TIMEOUT by {
        assert(ms[which[j]].bitmap == which[j]);
        assert(ms[which[j]].func == Func::Resp);
        law_responses_belong_to_their_transaction(arrivals[j].body);
    }
    assert(!all_there(which.drop_last(), ms.len())) by {
        let i = choose|i: int| 0 <= i < ms.len() && !(#[trigger] which.drop_last().contains(i));
        assert(!which.drop_last().contains(i));
    }
    law_a_series_completes_once(arrivals, which, key, ms);
}

/// Law: payloads put together are as long as they are each, and each stands in
/// its place behind those before it.
pub proof fn law_payloads_stand_in_order(ms: Seq<AtpView>, n: nat)
    requires
        0 < n <= ms.len(),
    ensures
        payloads(ms, n).len() == payloads(ms, (n - 1) as nat).len() + ms[n - 1].data.len(),
        payloads(ms, n).take(payloads(ms, (n - 1) as nat).len() as int) == payloads(
            ms,
            (n - 1) as nat,
        ),
        payloads(ms, n).skip(payloads(ms, (n - 1) as nat).len() as int) == ms[n - 1].data,
        payloads(ms, 0).len() == 0,
{
    let p = payloads(ms, (n - 1) as nat);
    assert(payloads(ms, n).take(p.len() as int) =~= p);
    assert(payloads(ms, n).skip(p.len() as int) =~= ms[n - 1].data);
}

/// Law: a transaction is kept for less than thirty seconds from its first
/// packet, and up to 511 others beside the one a packet belongs to; older ones,
/// and the oldest beyond that, are dropped.
pub proof fn law_transactions_are_forgotten(open: Seq<PartialView>, now: u64, p: PartialView)
    requires
        apart(open),
    ensures
        open.contains(p) && now - p.first_seen < 30000 && open.len() <= 511 ==> expired(
            open,
            now,
        ).contains(p),
        now - p.first_seen >= 30000 ==> !expired(open, now).contains(p),
        expired(open, now).len() <= 511,
{
    lemma_fresh_ones(open, now);
    let f = fresh_ones(open, now);
    lemma_trimmed(f, (MAX_OPEN - 1) as nat);
    lemma_trimmed_from(f, (MAX_OPEN - 1) as nat);
    lemma_fresh_fewer(open, now);
    if open.contains(p) && now - p.first_seen < 30000 && open.len() <= 511 {
        lemma_stays_fresh(open, now, p);
    }
    let e = expired(open, now);
    if e.contains(p) {
        let i = choose|i: int| 0 <= i < e.len() && e[i] == p;
        assert(f.contains(e[i]));
        let k = choose|k: int| 0 <= k < f.len() && f[k] == p;
        assert(since(now, f[k].first_seen) < TXN_TIMEOUT);
    }
}

proof fn lemma_fresh_fewer(open: Seq<PartialView>, now: u64)
    ensures
        fresh_ones(open, now).len() <= open.len(),
    decreases open.len(),
{
    if open.len() > 0 {
        lemma_fresh_fewer(open.drop_last(), now);
    }
}

proof fn lemma_trimmed_from(open: Seq<PartialView>, n: nat)
    ensures
        forall|i: int| 0 <= i < trimmed(open, n).len() ==> open.contains(#[trigger] trimmed(open, n)[i]),
    decreases open.len(),
{
    let t = trimmed(open, n);
    if open.len() > n && open.len() > 0 {
        lemma_oldest(open);
        let r = open.remove(oldest(open));
        lemma_trimmed_from(r, n);
        assert forall|i: int| 0 <= i < t.len() implies open.contains(#[trigger] t[i]) by {
            assert(t == trimmed(r, n));
            assert(r.contains(trimmed(r, n)[i]));
            let k = choose|k: int| 0 <= k < r.len() && r[k] == t[i];
            assert(open[if k < oldest(open) {
                k
            } else {
                k + 1
            }] == t[i]);
        }
    }
}

/// Law: a transaction from the zone information socket, 6, that reads as a zone
/// reply is one; every other is handed on as it is.
pub proof fn law_zone_replies_are_told_apart(t: TransactionView)
    ensures
        ({
            let z = crate::wire::zip::ZipAtpView::parse_reply(t.user_bytes, t.data);
            &&& t.key.src_socket == 6 && z is Some ==> MessageView::of(t) == MessageView::Zip(z->0)
            &&& t.key.src_socket != 6 || z is None ==> MessageView::of(t)
                == MessageView::Unclassified(t)
        }),
{
}

} // verus!
