//! RTMP: the Routing Table Maintenance Protocol, DDP types 1 and 5.

use vstd::prelude::*;
use vstd::slice::*;

use crate::fmt;
use crate::wire;
use crate::wire::{push16, read16, Addr, Encode, DDP_RTMP_DATA, DDP_RTMP_REQ};

verus! {

/// One network range and its distance in hops. Extended tuples are six bytes
/// and carry a trailer byte whose value differs between RTMP and AURP;
/// nonextended tuples are three.
#[derive(Debug, Clone, Copy, PartialEq, Eq)]
pub struct NetworkTuple {
    pub range: (u16, u16),
    pub extended: bool,
    /// Hops. 31 means the sender believes the entry is bad and wants its
    /// neighbours to notice.
    pub distance: u8,
}

impl NetworkTuple {
    /// The tuple at the front of `p` and what follows it. The high bit of the
    /// third byte tells the two forms apart.
    pub open spec fn spec_parse(p: Seq<u8>) -> Option<(NetworkTuple, Seq<u8>)> {
        if p.len() < 3 {
            None
        } else if p[2] < 0x80 {
            let start = wire::u16_at(p, 0);
            Some(
                (
                    NetworkTuple { range: (start, start), extended: false, distance: p[2] },
                    p.skip(3),
                ),
            )
        } else if p.len() < 6 {
            None
        } else {
            Some(
                (
                    NetworkTuple {
                        range: (wire::u16_at(p, 0), wire::u16_at(p, 3)),
                        extended: true,
                        distance: (p[2] - 0x80) as u8,
                    },
                    p.skip(6),
                ),
            )
        }
    }

    /// The tuple as it travels, with `trailer` closing the extended form.
    pub open spec fn bytes(self, trailer: u8) -> Seq<u8> {
        if self.extended {
            wire::be16(self.range.0) + seq![(0x80 + self.distance % 0x80) as u8] + wire::be16(
                self.range.1,
            ) + seq![trailer]
        } else {
            wire::be16(self.range.0) + seq![self.distance % 0x80]
        }
    }

    /// A tuple the wire can hold: seven bits of distance, and a nonextended
    /// network is a range of one.
    pub open spec fn valid(self) -> bool {
        self.distance < 0x80 && (!self.extended ==> self.range.0 == self.range.1)
    }

    pub open spec fn text(self) -> Seq<char> {
        if self.extended {
            fmt::dec(self.range.0 as nat) + "-"@ + fmt::dec(self.range.1 as nat) + " d"@ + fmt::dec(
                self.distance as nat,
            )
        } else {
            fmt::dec(self.range.0 as nat) + " d"@ + fmt::dec(self.distance as nat)
        }
    }

    /// Returns the tuple and the bytes after it. The high bit of the distance
    /// byte tells the two forms apart: set means a six-byte extended tuple
    /// <start, distance|0x80, end, trailer>, clear a three-byte
    /// <net, distance>.
    pub fn parse(p: &[u8]) -> (r: Option<(NetworkTuple, &[u8])>)
        ensures
            match r {
                Some((t, rest)) => Self::spec_parse(p@) == Some((t, rest@)),
                None => Self::spec_parse(p@) is None,
            },
    {
        if p.len() < 3 {
            return None;
        }
        let start = read16(p, 0);
        if p[2] < 0x80 {
            let t = NetworkTuple { range: (start, start), extended: false, distance: p[2] };
            let rest = slice_subrange(p, 3, p.len());
            assert(rest@ =~= p@.skip(3));
            return Some((t, rest));
        }
        if p.len() < 6 {
            return None;
        }
        // The sixth byte is the trailer: the RTMP version marker 0x82, unused
        // in AURP.
        let t = NetworkTuple {
            range: (start, read16(p, 3)),
            extended: true,
            distance: p[2] - 0x80,
        };
        let rest = slice_subrange(p, 6, p.len());
        assert(rest@ =~= p@.skip(6));
        Some((t, rest))
    }

    /// `trailer` is the sixth byte of an extended tuple: 0x82 in RTMP, 0x00 in
    /// AURP. A nonextended tuple has no trailer, so the argument is ignored.
    pub fn encode_with(&self, out: &mut Vec<u8>, trailer: u8)
        ensures
            final(out)@ == old(out)@ + self.bytes(trailer),
    {
        push16(out, self.range.0);
        if !self.extended {
            out.push(self.distance % 0x80);
            assert(out@ =~= old(out)@ + self.bytes(trailer));
            return;
        }
        out.push(0x80 + self.distance % 0x80);
        push16(out, self.range.1);
        out.push(trailer);
        assert(out@ =~= old(out)@ + self.bytes(trailer));
    }

    /// Appends the printed form.
    pub fn write(&self, out: &mut String)
        ensures
            final(out)@ == old(out)@ + self.text(),
    {
        fmt::push_dec(out, self.range.0 as u64);
        if self.extended {
            fmt::push_text(out, "-");
            fmt::push_dec(out, self.range.1 as u64);
        }
        fmt::push_text(out, " d");
        fmt::push_dec(out, self.distance as u64);
        assert(out@ =~= old(out)@ + self.text());
    }
}

/// A run of tuples with nothing after it.
pub open spec fn tuples_of(p: Seq<u8>) -> Option<Seq<NetworkTuple>>
    decreases p.len(),
{
    if p.len() == 0 {
        Some(Seq::empty())
    } else {
        match NetworkTuple::spec_parse(p) {
            None => None,
            Some((t, rest)) => match tuples_of(rest) {
                None => None,
                Some(ts) => Some(seq![t] + ts),
            },
        }
    }
}

/// Tuples back to back.
pub open spec fn tuples_bytes(ts: Seq<NetworkTuple>, trailer: u8) -> Seq<u8>
    decreases ts.len(),
{
    if ts.len() == 0 {
        Seq::empty()
    } else {
        tuples_bytes(ts.drop_last(), trailer) + ts.last().bytes(trailer)
    }
}

/// Every tuple fits the wire.
pub open spec fn tuples_valid(ts: Seq<NetworkTuple>) -> bool {
    forall|i: int| 0 <= i < ts.len() ==> (#[trigger] ts[i]).valid()
}

/// Reads tuples until nothing is left.
pub fn parse_tuples(p: &[u8]) -> (r: Option<Vec<NetworkTuple>>)
    ensures
        match r {
            Some(ts) => tuples_of(p@) == Some(ts@),
            None => tuples_of(p@) is None,
        },
{
    let mut tuples: Vec<NetworkTuple> = Vec::new();
    let mut rest: &[u8] = p;
    while rest.len() > 0
        invariant
            tuples_of(p@) == (match tuples_of(rest@) {
                None => None,
                Some(ts) => Some(tuples@ + ts),
            }),
        decreases rest@.len(),
    {
        match NetworkTuple::parse(rest) {
            None => {
                return None;
            },
            Some((t, tail)) => {
                let ghost before = tuples@;
                tuples.push(t);
                rest = tail;
                proof {
                    if let Some(ts) = tuples_of(rest@) {
                        assert(before + (seq![t] + ts) =~= tuples@ + ts);
                    }
                }
            },
        }
    }
    assert(tuples@ + Seq::<NetworkTuple>::empty() =~= tuples@);
    Some(tuples)
}

/// Appends tuples back to back.
pub fn encode_tuples(out: &mut Vec<u8>, ts: &Vec<NetworkTuple>, trailer: u8)
    ensures
        final(out)@ == old(out)@ + tuples_bytes(ts@, trailer),
{
    let mut i: usize = 0;
    assert(ts@.take(0) =~= Seq::empty());
    assert(out@ =~= old(out)@ + tuples_bytes(ts@.take(0), trailer));
    while i < ts.len()
        invariant
            i <= ts@.len(),
            out@ == old(out)@ + tuples_bytes(ts@.take(i as int), trailer),
        decreases ts@.len() - i,
    {
        ts[i].encode_with(out, trailer);
        assert(ts@.take(i + 1).drop_last() =~= ts@.take(i as int));
        i = i + 1;
        assert(out@ =~= old(out)@ + tuples_bytes(ts@.take(i as int), trailer));
    }
    assert(ts@.take(i as int) =~= ts@);
}

/// The trailer byte RTMP puts on an extended tuple: also its version marker.
pub const RTMP_TRAILER: u8 = 0x82;

/// The three-byte version marker that stands in for the first tuple on a
/// nonextended network.
pub open spec fn version_marker() -> Seq<u8> {
    seq![0x00, 0x00, RTMP_TRAILER]
}

#[derive(Debug, PartialEq, Eq)]
pub enum Rtmp {
    /// DDP type 1. `range` is Some on an extended network (the first tuple)
    /// and None on a nonextended one (the 00 00 82 version marker). An RTMP
    /// Response is a Data with no tuples.
    Data { sender: Addr, range: Option<(u16, u16)>, tuples: Vec<NetworkTuple> },
    /// DDP type 5, function 1.
    Request,
    /// DDP type 5, function 2 (split horizon) or 3 (whole table).
    Rdr { split_horizon: bool },
}

/// What an RTMP packet says.
pub enum RtmpView {
    Data { sender: Addr, range: Option<(u16, u16)>, tuples: Seq<NetworkTuple> },
    Request,
    Rdr { split_horizon: bool },
}

impl RtmpView {
    pub open spec fn parse(ddp_type: u8, p: Seq<u8>) -> Option<RtmpView> {
        if ddp_type == DDP_RTMP_DATA {
            Self::parse_data(p)
        } else if ddp_type == DDP_RTMP_REQ && p.len() == 1 {
            if p[0] == 1 {
                Some(RtmpView::Request)
            } else if p[0] == 2 {
                Some(RtmpView::Rdr { split_horizon: true })
            } else if p[0] == 3 {
                Some(RtmpView::Rdr { split_horizon: false })
            } else {
                None
            }
        } else {
            None
        }
    }

    /// The sender's network, a node ID of eight bits, the version marker or
    /// the extended tuple of the sender's own range, then the tuples.
    pub open spec fn parse_data(p: Seq<u8>) -> Option<RtmpView> {
        if p.len() < 4 || p[2] != 8 {
            None
        } else {
            let sender = Addr { net: wire::u16_at(p, 0), node: p[3] };
            let rest = p.skip(4);
            if rest.len() >= 3 && rest.take(3) == version_marker() {
                match tuples_of(rest.skip(3)) {
                    None => None,
                    Some(tuples) => Some(RtmpView::Data { sender, range: None, tuples }),
                }
            } else {
                match NetworkTuple::spec_parse(rest) {
                    None => None,
                    Some((first, tail)) => if !first.extended {
                        None
                    } else {
                        match tuples_of(tail) {
                            None => None,
                            Some(tuples) => Some(
                                RtmpView::Data { sender, range: Some(first.range), tuples },
                            ),
                        }
                    },
                }
            }
        }
    }

    pub open spec fn ddp_type(self) -> u8 {
        match self {
            RtmpView::Data { .. } => DDP_RTMP_DATA,
            _ => DDP_RTMP_REQ,
        }
    }

    pub open spec fn bytes(self) -> Seq<u8> {
        match self {
            RtmpView::Data { sender, range, tuples } => wire::be16(sender.net) + seq![
                8u8,
                sender.node,
            ] + (match range {
                Some(r) => NetworkTuple { range: r, extended: true, distance: 0 }.bytes(
                    RTMP_TRAILER,
                ),
                None => version_marker(),
            }) + tuples_bytes(tuples, RTMP_TRAILER),
            RtmpView::Request => seq![1u8],
            RtmpView::Rdr { split_horizon } => if split_horizon {
                seq![2u8]
            } else {
                seq![3u8]
            },
        }
    }

    pub open spec fn valid(self) -> bool {
        match self {
            RtmpView::Data { tuples, .. } => tuples_valid(tuples),
            _ => true,
        }
    }

    pub open spec fn text(self) -> Seq<char> {
        match self {
            RtmpView::Data { sender, range, tuples } => "rtmp-data from "@ + sender.text() + (
            match range {
                Some((start, end)) => " range "@ + fmt::dec(start as nat) + "-"@ + fmt::dec(
                    end as nat,
                ),
                None => Seq::empty(),
            }) + tuples_text(tuples),
            RtmpView::Request => "rtmp-request"@,
            RtmpView::Rdr { split_horizon } => if split_horizon {
                "rtmp-rdr split-horizon"@
            } else {
                "rtmp-rdr full"@
            },
        }
    }
}

/// The tuples of a packet, a colon before the first and commas between them.
pub open spec fn tuples_text(ts: Seq<NetworkTuple>) -> Seq<char>
    decreases ts.len(),
{
    if ts.len() == 0 {
        Seq::empty()
    } else {
        tuples_text(ts.drop_last()) + (if ts.len() == 1 {
            ": "@
        } else {
            ", "@
        }) + ts.last().text()
    }
}

impl DeepView for Rtmp {
    type V = RtmpView;

    open spec fn deep_view(&self) -> RtmpView {
        match self {
            Rtmp::Data { sender, range, tuples } => RtmpView::Data {
                sender: *sender,
                range: *range,
                tuples: tuples@,
            },
            Rtmp::Request => RtmpView::Request,
            Rtmp::Rdr { split_horizon } => RtmpView::Rdr { split_horizon: *split_horizon },
        }
    }
}

impl Rtmp {
    pub fn parse(ddp_type: u8, p: &[u8]) -> (r: Option<Rtmp>)
        ensures
            r.deep_view() == RtmpView::parse(ddp_type, p@),
    {
        if ddp_type == DDP_RTMP_DATA {
            return Self::parse_data(p);
        }
        if ddp_type != DDP_RTMP_REQ || p.len() != 1 {
            return None;
        }
        match p[0] {
            1 => Some(Rtmp::Request),
            2 => Some(Rtmp::Rdr { split_horizon: true }),
            3 => Some(Rtmp::Rdr { split_horizon: false }),
            _ => None,
        }
    }

    fn parse_data(p: &[u8]) -> (r: Option<Rtmp>)
        ensures
            r.deep_view() == RtmpView::parse_data(p@),
    {
        if p.len() < 4 {
            return None;
        }
        // The sender ID is length-prefixed in *bits*; on AppleTalk it is
        // always 8.
        if p[2] != 8 {
            return None;
        }
        let sender = Addr { net: read16(p, 0), node: p[3] };
        let rest = slice_subrange(p, 4, p.len());
        assert(rest@ =~= p@.skip(4));
        if rest.len() >= 3 && rest[0] == 0x00 && rest[1] == 0x00 && rest[2] == RTMP_TRAILER {
            assert(rest@.take(3) =~= version_marker());
            let tail = slice_subrange(rest, 3, rest.len());
            assert(tail@ =~= rest@.skip(3));
            match parse_tuples(tail) {
                None => None,
                Some(tuples) => Some(Rtmp::Data { sender, range: None, tuples }),
            }
        } else {
            proof {
                if rest@.len() >= 3 {
                    let t = rest@.take(3);
                    assert(t[0] == rest@[0] && t[1] == rest@[1] && t[2] == rest@[2]);
                }
            }
            match NetworkTuple::parse(rest) {
                None => None,
                Some((first, tail)) => {
                    if !first.extended {
                        return None;
                    }
                    match parse_tuples(tail) {
                        None => None,
                        Some(tuples) => Some(
                            Rtmp::Data { sender, range: Some(first.range), tuples },
                        ),
                    }
                },
            }
        }
    }

    /// The DDP protocol type this variant travels as.
    pub fn ddp_type(&self) -> (r: u8)
        ensures
            r == self.deep_view().ddp_type(),
    {
        match self {
            Rtmp::Data { .. } => DDP_RTMP_DATA,
            _ => DDP_RTMP_REQ,
        }
    }

    pub fn to_string(&self) -> (r: String)
        ensures
            r@ == self.deep_view().text(),
    {
        match self {
            Rtmp::Data { sender, range, tuples } => {
                let mut s = fmt::text("rtmp-data from ");
                sender.write(&mut s);
                if let Some((start, end)) = range {
                    fmt::push_text(&mut s, " range ");
                    fmt::push_dec(&mut s, *start as u64);
                    fmt::push_text(&mut s, "-");
                    fmt::push_dec(&mut s, *end as u64);
                }
                let ghost head = s@;
                assert(tuples@.take(0) =~= Seq::empty());
                assert(s@ =~= head + tuples_text(tuples@.take(0)));
                let mut i: usize = 0;
                while i < tuples.len()
                    invariant
                        i <= tuples@.len(),
                        s@ == head + tuples_text(tuples@.take(i as int)),
                    decreases tuples@.len() - i,
                {
                    fmt::push_text(
                        &mut s,
                        if i == 0 {
                            ": "
                        } else {
                            ", "
                        },
                    );
                    tuples[i].write(&mut s);
                    assert(tuples@.take(i + 1).drop_last() =~= tuples@.take(i as int));
                    i = i + 1;
                    assert(s@ =~= head + tuples_text(tuples@.take(i as int)));
                }
                assert(tuples@.take(i as int) =~= tuples@);
                assert(s@ =~= self.deep_view().text());
                s
            },
            Rtmp::Request => fmt::text("rtmp-request"),
            Rtmp::Rdr { split_horizon } => if *split_horizon {
                fmt::text("rtmp-rdr split-horizon")
            } else {
                fmt::text("rtmp-rdr full")
            },
        }
    }
}

impl Encode for Rtmp {
    open spec fn encoding(&self) -> Seq<u8> {
        self.deep_view().bytes()
    }

    fn encode(&self, out: &mut Vec<u8>) {
        match self {
            Rtmp::Data { sender, range, tuples } => {
                push16(out, sender.net);
                out.push(8);  // sender ID length, in bits
                out.push(sender.node);
                match range {
                    Some(r) => {
                        let first = NetworkTuple { range: *r, extended: true, distance: 0 };
                        first.encode_with(out, RTMP_TRAILER);
                    },
                    None => {
                        out.push(0x00);
                        out.push(0x00);
                        out.push(RTMP_TRAILER);
                    },
                }
                encode_tuples(out, tuples, RTMP_TRAILER);
            },
            Rtmp::Request => out.push(1),
            Rtmp::Rdr { split_horizon } => out.push(
                if *split_horizon {
                    2
                } else {
                    3
                },
            ),
        }
        assert(out@ =~= old(out)@ + self.encoding());
    }
}

/// Law: a tuple reads back as itself, whatever its trailer, and leaves what
/// followed it.
pub proof fn law_tuple_round_trip(t: NetworkTuple, trailer: u8, rest: Seq<u8>)
    requires
        t.valid(),
    ensures
        NetworkTuple::spec_parse(t.bytes(trailer) + rest) == Some((t, rest)),
{
    broadcast use crate::wire::lemma_be16;

    let p = t.bytes(trailer) + rest;
    if t.extended {
        assert(p.skip(6) =~= rest);
    } else {
        assert(p.skip(3) =~= rest);
    }
}

/// Tuples back to back start with the first one.
pub proof fn lemma_tuples_bytes_first(ts: Seq<NetworkTuple>, trailer: u8)
    requires
        ts.len() > 0,
    ensures
        tuples_bytes(ts, trailer) == ts[0].bytes(trailer) + tuples_bytes(ts.drop_first(), trailer),
    decreases ts.len(),
{
    if ts.len() == 1 {
        assert(ts.drop_last() =~= Seq::empty());
        assert(ts.drop_first() =~= Seq::empty());
        assert(tuples_bytes(ts, trailer) =~= ts[0].bytes(trailer) + tuples_bytes(
            ts.drop_first(),
            trailer,
        ));
    } else {
        lemma_tuples_bytes_first(ts.drop_last(), trailer);
        assert(ts.drop_last().drop_first() =~= ts.drop_first().drop_last());
        assert(tuples_bytes(ts, trailer) =~= ts[0].bytes(trailer) + tuples_bytes(
            ts.drop_first(),
            trailer,
        ));
    }
}

/// What a run of tuples reads as once its first tuple is known.
proof fn lemma_read_on(p: Seq<u8>, t: NetworkTuple, rest: Seq<u8>)
    requires
        NetworkTuple::spec_parse(p) == Some((t, rest)),
        tuples_of(rest) is Some,
    ensures
        tuples_of(p) == Some(seq![t] + tuples_of(rest)->0),
{
}

/// Law: a run of tuples reads back as itself.
pub proof fn law_tuples_round_trip(ts: Seq<NetworkTuple>, trailer: u8)
    requires
        tuples_valid(ts),
    ensures
        tuples_of(tuples_bytes(ts, trailer)) == Some(ts),
    decreases ts.len(),
{
    if ts.len() > 0 {
        let then = ts.drop_first();
        let rest = tuples_bytes(then, trailer);
        lemma_tuples_bytes_first(ts, trailer);
        assert(ts[0].valid());
        law_tuple_round_trip(ts[0], trailer, rest);
        assert forall|i: int| 0 <= i < then.len() implies (#[trigger] then[i]).valid() by {
            assert(then[i] == ts[i + 1]);
        }
        law_tuples_round_trip(then, trailer);
        lemma_read_on(tuples_bytes(ts, trailer), ts[0], rest);
        assert(seq![ts[0]] + then =~= ts);
    } else {
        assert(ts =~= Seq::empty());
    }
}

/// Law: an RTMP packet reads back as itself under the DDP type it travels as.
pub proof fn law_round_trip(r: RtmpView)
    requires
        r.valid(),
    ensures
        RtmpView::parse(r.ddp_type(), r.bytes()) == Some(r),
{
    broadcast use crate::wire::lemma_be16;

    if let RtmpView::Data { sender, range, tuples } = r {
        let p = r.bytes();
        let tb = tuples_bytes(tuples, RTMP_TRAILER);
        law_tuples_round_trip(tuples, RTMP_TRAILER);
        match range {
            None => {
                assert(p.skip(4) =~= version_marker() + tb);
                assert(p.skip(4).take(3) =~= version_marker());
                assert(p.skip(4).skip(3) =~= tb);
            },
            Some(rg) => {
                let first = NetworkTuple { range: rg, extended: true, distance: 0 };
                assert(p.skip(4) =~= first.bytes(RTMP_TRAILER) + tb);
                law_tuple_round_trip(first, RTMP_TRAILER, tb);
                assert(p.skip(4)[2] == 0x80);
                assert(p.skip(4).take(3)[2] == 0x80);
                assert(version_marker()[2] == 0x82);
            },
        }
    }
}

} // verus!
