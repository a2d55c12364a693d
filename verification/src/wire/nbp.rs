//! Name Binding Protocol -- maps `object:type@zone` names to addresses.

use vstd::prelude::*;
use vstd::slice::*;

use crate::fmt;
use crate::wire;
use crate::wire::{pstring, push16, put_pstring, read16, Addr, Encode};

verus! {

#[derive(Debug, Clone, Copy, PartialEq, Eq, Structural)]
pub enum NbpFunc {
    /// Broadcast request: "someone find this name for me".
    BrRq,
    /// Lookup, sent to a network's NBP socket.
    LkUp,
    LkUpReply,
    /// Forward request: a router passing a BrRq to another network.
    FwdReq,
}

impl NbpFunc {
    pub open spec fn text(self) -> Seq<char> {
        match self {
            NbpFunc::BrRq => "BrRq"@,
            NbpFunc::LkUp => "LkUp"@,
            NbpFunc::LkUpReply => "LkUp-Reply"@,
            NbpFunc::FwdReq => "FwdReq"@,
        }
    }

    /// The high nibble of the first byte.
    pub open spec fn code(self) -> u8 {
        match self {
            NbpFunc::BrRq => 1,
            NbpFunc::LkUp => 2,
            NbpFunc::LkUpReply => 3,
            NbpFunc::FwdReq => 4,
        }
    }

    /// The function a nibble names.
    pub open spec fn of(code: u8) -> Option<NbpFunc> {
        if code == 1 {
            Some(NbpFunc::BrRq)
        } else if code == 2 {
            Some(NbpFunc::LkUp)
        } else if code == 3 {
            Some(NbpFunc::LkUpReply)
        } else if code == 4 {
            Some(NbpFunc::FwdReq)
        } else {
            None
        }
    }

    pub fn name(self) -> (r: &'static str)
        ensures
            r@ == self.text(),
    {
        match self {
            NbpFunc::BrRq => "BrRq",
            NbpFunc::LkUp => "LkUp",
            NbpFunc::LkUpReply => "LkUp-Reply",
            NbpFunc::FwdReq => "FwdReq",
        }
    }
}

/// One name-to-address binding: `object:type@zone` living at an address.
#[derive(Debug, PartialEq, Eq)]
pub struct NbpTuple {
    pub addr: Addr,
    pub socket: u8,
    /// Distinguishes entities registered under the same name on one socket.
    pub enumerator: u8,
    pub object: String,
    pub typ: String,
    pub zone: String,
}

/// What a binding says.
pub struct NbpTupleView {
    pub addr: Addr,
    pub socket: u8,
    pub enumerator: u8,
    pub object: Seq<char>,
    pub typ: Seq<char>,
    pub zone: Seq<char>,
}

impl NbpTupleView {
    pub open spec fn parse(p: Seq<u8>) -> Option<(NbpTupleView, Seq<u8>)> {
        if p.len() < 5 {
            None
        } else {
            match wire::pstring_of(p.skip(5)) {
                None => None,
                Some((object, r1)) => match wire::pstring_of(r1) {
                    None => None,
                    Some((typ, r2)) => match wire::pstring_of(r2) {
                        None => None,
                        Some((zone, r3)) => Some(
                            (
                                NbpTupleView {
                                    addr: Addr { net: wire::u16_at(p, 0), node: p[2] },
                                    socket: p[3],
                                    enumerator: p[4],
                                    object,
                                    typ,
                                    zone,
                                },
                                r3,
                            ),
                        ),
                    },
                },
            }
        }
    }

    pub open spec fn bytes(self) -> Seq<u8> {
        wire::be16(self.addr.net) + seq![self.addr.node, self.socket, self.enumerator]
            + wire::pname(self.object) + wire::pname(self.typ) + wire::pname(self.zone)
    }

    pub open spec fn valid(self) -> bool {
        wire::name_ok(self.object) && wire::name_ok(self.typ) && wire::name_ok(self.zone)
    }

    pub open spec fn text(self) -> Seq<char> {
        self.object + ":"@ + self.typ + "@"@ + self.zone + " at "@ + self.addr.text() + ":"@
            + fmt::dec(self.socket as nat) + (if self.enumerator != 0 {
            " #"@ + fmt::dec(self.enumerator as nat)
        } else {
            Seq::empty()
        })
    }
}

impl DeepView for NbpTuple {
    type V = NbpTupleView;

    open spec fn deep_view(&self) -> NbpTupleView {
        NbpTupleView {
            addr: self.addr,
            socket: self.socket,
            enumerator: self.enumerator,
            object: self.object@,
            typ: self.typ@,
            zone: self.zone@,
        }
    }
}

impl Clone for NbpTuple {
    fn clone(&self) -> (r: NbpTuple)
        ensures
            r.deep_view() == self.deep_view(),
    {
        NbpTuple {
            addr: self.addr,
            socket: self.socket,
            enumerator: self.enumerator,
            object: self.object.clone(),
            typ: self.typ.clone(),
            zone: self.zone.clone(),
        }
    }
}

impl NbpTuple {
    fn parse(p: &[u8]) -> (r: Option<(NbpTuple, &[u8])>)
        ensures
            match r {
                Some((t, rest)) => NbpTupleView::parse(p@) == Some((t.deep_view(), rest@)),
                None => NbpTupleView::parse(p@) is None,
            },
    {
        if p.len() < 5 {
            return None;
        }
        let names = slice_subrange(p, 5, p.len());
        assert(names@ =~= p@.skip(5));
        let (object, r1) = pstring(names)?;
        let (typ, r2) = pstring(r1)?;
        let (zone, r3) = pstring(r2)?;
        Some(
            (
                NbpTuple {
                    addr: Addr { net: read16(p, 0), node: p[2] },
                    socket: p[3],
                    enumerator: p[4],
                    object,
                    typ,
                    zone,
                },
                r3,
            ),
        )
    }

    pub fn to_string(&self) -> (r: String)
        ensures
            r@ == self.deep_view().text(),
    {
        let mut s = String::new();
        self.write(&mut s);
        assert(s@ =~= self.deep_view().text());
        s
    }

    /// Appends the printed form.
    pub fn write(&self, out: &mut String)
        ensures
            final(out)@ == old(out)@ + self.deep_view().text(),
    {
        fmt::push_text(out, self.object.as_str());
        fmt::push_text(out, ":");
        fmt::push_text(out, self.typ.as_str());
        fmt::push_text(out, "@");
        fmt::push_text(out, self.zone.as_str());
        fmt::push_text(out, " at ");
        self.addr.write(out);
        fmt::push_text(out, ":");
        fmt::push_dec(out, self.socket as u64);
        if self.enumerator != 0 {
            fmt::push_text(out, " #");
            fmt::push_dec(out, self.enumerator as u64);
        }
        assert(out@ =~= old(out)@ + self.deep_view().text());
    }
}

/// An NBP packet: a function, a transaction id, and one or more tuples. A
/// lookup carries the name being asked about; a reply carries what answered.
#[derive(Debug, PartialEq, Eq)]
pub struct Nbp {
    pub func: NbpFunc,
    pub id: u8,
    pub tuples: Vec<NbpTuple>,
}

/// What an NBP packet says.
pub struct NbpView {
    pub func: NbpFunc,
    pub id: u8,
    pub tuples: Seq<NbpTupleView>,
}

/// Exactly `n` tuples at the front of `p`, and what follows them.
pub open spec fn tuples_of(p: Seq<u8>, n: nat) -> Option<(Seq<NbpTupleView>, Seq<u8>)>
    decreases n,
{
    if n == 0 {
        Some((Seq::empty(), p))
    } else {
        match NbpTupleView::parse(p) {
            None => None,
            Some((t, rest)) => match tuples_of(rest, (n - 1) as nat) {
                None => None,
                Some((ts, end)) => Some((seq![t] + ts, end)),
            },
        }
    }
}

/// Tuples back to back.
pub open spec fn tuples_bytes(ts: Seq<NbpTupleView>) -> Seq<u8>
    decreases ts.len(),
{
    if ts.len() == 0 {
        Seq::empty()
    } else {
        tuples_bytes(ts.drop_last()) + ts.last().bytes()
    }
}

/// Tuples for printing, two spaces before each.
pub open spec fn tuples_text(ts: Seq<NbpTupleView>) -> Seq<char>
    decreases ts.len(),
{
    if ts.len() == 0 {
        Seq::empty()
    } else {
        tuples_text(ts.drop_last()) + "  "@ + ts.last().text()
    }
}

impl NbpView {
    /// The high nibble is the function, the low nibble the tuple count.
    pub open spec fn parse(p: Seq<u8>) -> Option<NbpView> {
        if p.len() < 2 {
            None
        } else {
            match NbpFunc::of(p[0] / 16) {
                None => None,
                Some(func) => match tuples_of(p.skip(2), (p[0] % 16) as nat) {
                    None => None,
                    Some((tuples, _)) => Some(NbpView { func, id: p[1], tuples }),
                },
            }
        }
    }

    pub open spec fn bytes(self) -> Seq<u8> {
        let count: int = if self.tuples.len() < 15 {
            self.tuples.len() as int
        } else {
            15
        };
        seq![(self.func.code() * 16 + count) as u8, self.id] + tuples_bytes(self.tuples)
    }

    /// At most fifteen tuples, which is what the count can say, with names
    /// that travel unchanged.
    pub open spec fn valid(self) -> bool {
        &&& self.tuples.len() <= 15
        &&& forall|i: int| 0 <= i < self.tuples.len() ==> (#[trigger] self.tuples[i]).valid()
    }

    pub open spec fn text(self) -> Seq<char> {
        self.func.text() + " id "@ + fmt::dec(self.id as nat) + tuples_text(self.tuples)
    }
}

impl DeepView for Nbp {
    type V = NbpView;

    open spec fn deep_view(&self) -> NbpView {
        NbpView { func: self.func, id: self.id, tuples: self.tuples.deep_view() }
    }
}

impl Clone for Nbp {
    fn clone(&self) -> (r: Nbp)
        ensures
            r.deep_view() == self.deep_view(),
    {
        let mut tuples: Vec<NbpTuple> = Vec::new();
        let mut i: usize = 0;
        while i < self.tuples.len()
            invariant
                i <= self.tuples@.len(),
                tuples.deep_view() == self.tuples.deep_view().take(i as int),
            decreases self.tuples@.len() - i,
        {
            let t = self.tuples[i].clone();
            let ghost before = tuples.deep_view();
            let ghost tv = t.deep_view();
            tuples.push(t);
            i = i + 1;
            assert(tuples.deep_view() =~= before.push(tv));
            assert(tuples.deep_view() =~= self.tuples.deep_view().take(i as int));
        }
        assert(tuples.deep_view() =~= self.tuples.deep_view());
        Nbp { func: self.func, id: self.id, tuples }
    }
}

impl Nbp {
    pub fn parse(p: &[u8]) -> (r: Option<Nbp>)
        ensures
            r.deep_view() == NbpView::parse(p@),
    {
        if p.len() < 2 {
            return None;
        }
        let func = match p[0] / 16 {
            1 => NbpFunc::BrRq,
            2 => NbpFunc::LkUp,
            3 => NbpFunc::LkUpReply,
            4 => NbpFunc::FwdReq,
            _ => return None,
        };
        let n: u8 = p[0] % 16;
        let mut rest = slice_subrange(p, 2, p.len());
        assert(rest@ =~= p@.skip(2));
        let mut tuples: Vec<NbpTuple> = Vec::new();
        assert(tuples.deep_view() =~= Seq::empty());
        let mut i: u8 = 0;
        proof {
            if let Some((ts, end)) = tuples_of(rest@, n as nat) {
                assert(tuples.deep_view() + ts =~= ts);
            }
        }
        while i < n
            invariant
                i <= n,
                p@.len() >= 2,
                tuples_of(p@.skip(2), n as nat) == (match tuples_of(rest@, (n - i) as nat) {
                    None => None,
                    Some((ts, end)) => Some((tuples.deep_view() + ts, end)),
                }),
                NbpFunc::of(p@[0] / 16) == Some(func),
                n == p@[0] % 16,
            decreases n - i,
        {
            match NbpTuple::parse(rest) {
                None => {
                    return None;
                },
                Some((t, r)) => {
                    let ghost before = tuples.deep_view();
                    let ghost tv = t.deep_view();
                    tuples.push(t);
                    rest = r;
                    i = i + 1;
                    assert(tuples.deep_view() =~= before.push(tv));
                    proof {
                        if let Some((ts, end)) = tuples_of(rest@, (n - i) as nat) {
                            assert(before + (seq![tv] + ts) =~= tuples.deep_view() + ts);
                        }
                    }
                },
            }
        }
        assert(tuples.deep_view() + Seq::empty() =~= tuples.deep_view());
        Some(Nbp { func, id: p[1], tuples })
    }

    pub fn to_string(&self) -> (r: String)
        ensures
            r@ == self.deep_view().text(),
    {
        let mut s = fmt::text(self.func.name());
        fmt::push_text(&mut s, " id ");
        fmt::push_dec(&mut s, self.id as u64);
        let ghost head = s@;
        let ghost ts = self.tuples.deep_view();
        assert(ts.take(0) =~= Seq::empty());
        assert(s@ =~= head + tuples_text(ts.take(0)));
        let mut i: usize = 0;
        while i < self.tuples.len()
            invariant
                i <= self.tuples@.len(),
                ts == self.tuples.deep_view(),
                s@ == head + tuples_text(ts.take(i as int)),
            decreases self.tuples@.len() - i,
        {
            fmt::push_text(&mut s, "  ");
            self.tuples[i].write(&mut s);
            assert(ts.take(i + 1).drop_last() =~= ts.take(i as int));
            i = i + 1;
            assert(s@ =~= head + tuples_text(ts.take(i as int)));
        }
        assert(ts.take(i as int) =~= ts);
        s
    }
}

impl Encode for NbpTuple {
    open spec fn encoding(&self) -> Seq<u8> {
        self.deep_view().bytes()
    }

    fn encode(&self, out: &mut Vec<u8>) {
        push16(out, self.addr.net);
        out.push(self.addr.node);
        out.push(self.socket);
        out.push(self.enumerator);
        put_pstring(out, self.object.as_str());
        put_pstring(out, self.typ.as_str());
        put_pstring(out, self.zone.as_str());
        assert(out@ =~= old(out)@ + self.encoding());
    }
}

impl Encode for Nbp {
    open spec fn encoding(&self) -> Seq<u8> {
        self.deep_view().bytes()
    }

    fn encode(&self, out: &mut Vec<u8>) {
        let func: u8 = match self.func {
            NbpFunc::BrRq => 1,
            NbpFunc::LkUp => 2,
            NbpFunc::LkUpReply => 3,
            NbpFunc::FwdReq => 4,
        };
        // High nibble function, low nibble the recomputed tuple count.
        let count: u8 = if self.tuples.len() < 15 {
            self.tuples.len() as u8
        } else {
            15
        };
        out.push(func * 16 + count);
        out.push(self.id);
        let ghost head = out@;
        let ghost ts = self.tuples.deep_view();
        assert(ts.take(0) =~= Seq::empty());
        assert(out@ =~= head + tuples_bytes(ts.take(0)));
        let mut i: usize = 0;
        while i < self.tuples.len()
            invariant
                i <= self.tuples@.len(),
                ts == self.tuples.deep_view(),
                out@ == head + tuples_bytes(ts.take(i as int)),
            decreases self.tuples@.len() - i,
        {
            self.tuples[i].encode(out);
            assert(ts.take(i + 1).drop_last() =~= ts.take(i as int));
            i = i + 1;
            assert(out@ =~= head + tuples_bytes(ts.take(i as int)));
        }
        assert(ts.take(i as int) =~= ts);
        assert(out@ =~= old(out)@ + self.encoding());
    }
}

/// Law: a binding with plain names reads back as itself, and leaves what
/// followed it.
pub proof fn law_tuple_round_trip(t: NbpTupleView, rest: Seq<u8>)
    requires
        t.valid(),
    ensures
        NbpTupleView::parse(t.bytes() + rest) == Some((t, rest)),
{
    broadcast use crate::wire::lemma_be16;

    let p = t.bytes() + rest;
    wire::lemma_name_bytes(t.object);
    let r2 = wire::pname(t.zone) + rest;
    let r1 = wire::pname(t.typ) + r2;
    assert(p.skip(5) =~= wire::pname(t.object) + r1);
    wire::lemma_pstring_round_trip(t.object, r1);
    wire::lemma_pstring_round_trip(t.typ, r2);
    wire::lemma_pstring_round_trip(t.zone, rest);
}

proof fn lemma_tuples_bytes_first(ts: Seq<NbpTupleView>)
    requires
        ts.len() > 0,
    ensures
        tuples_bytes(ts) == ts[0].bytes() + tuples_bytes(ts.drop_first()),
    decreases ts.len(),
{
    if ts.len() == 1 {
        assert(ts.drop_last() =~= Seq::empty());
        assert(ts.drop_first() =~= Seq::empty());
    } else {
        lemma_tuples_bytes_first(ts.drop_last());
        assert(ts.drop_last().drop_first() =~= ts.drop_first().drop_last());
    }
    assert(tuples_bytes(ts) =~= ts[0].bytes() + tuples_bytes(ts.drop_first()));
}

#[verifier::spinoff_prover]
#[verifier::rlimit(60)]
proof fn lemma_tuples_round_trip(ts: Seq<NbpTupleView>)
    requires
        forall|i: int| 0 <= i < ts.len() ==> (#[trigger] ts[i]).valid(),
    ensures
        tuples_of(tuples_bytes(ts), ts.len()) == Some((ts, Seq::<u8>::empty())),
    decreases ts.len(),
{
    if ts.len() > 0 {
        let tail = ts.drop_first();
        lemma_tuples_bytes_first(ts);
        law_tuple_round_trip(ts[0], tuples_bytes(tail));
        assert forall|i: int| 0 <= i < tail.len() implies (#[trigger] tail[i]).valid() by {
            assert(ts[i + 1].valid());
        }
        lemma_tuples_round_trip(tail);
        lemma_tuples_of_step(tuples_bytes(ts), ts[0], tuples_bytes(tail), tail);
        assert(seq![ts[0]] + tail =~= ts);
    } else {
        assert(ts =~= Seq::empty());
    }
}

proof fn lemma_tuples_of_step(p: Seq<u8>, t: NbpTupleView, rest: Seq<u8>, ts: Seq<NbpTupleView>)
    requires
        NbpTupleView::parse(p) == Some((t, rest)),
        tuples_of(rest, ts.len()) == Some((ts, Seq::<u8>::empty())),
    ensures
        tuples_of(p, ts.len() + 1) == Some((seq![t] + ts, Seq::<u8>::empty())),
{
}

/// Law: an NBP packet reads back as itself.
pub proof fn law_round_trip(n: NbpView)
    requires
        n.valid(),
    ensures
        NbpView::parse(n.bytes()) == Some(n),
{
    let p = n.bytes();
    assert(p.skip(2) =~= tuples_bytes(n.tuples));
    lemma_tuples_round_trip(n.tuples);
    assert(p[0] / 16 == n.func.code());
    assert(p[0] % 16 == n.tuples.len());
}

} // verus!
