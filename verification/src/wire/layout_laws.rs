//! Where the fields of each packet stand, byte by byte, and which bytes are no
//! packet.

use vstd::prelude::*;

use crate::addr::MacAddr;
use crate::wire;
use crate::wire::aep::AepView;
use crate::wire::atp::AtpView;
use crate::wire::aurp::{AurpView, CmdView, Di, DomainHeader, EventTuple};
use crate::wire::ddp::{checksum_of, sum_of, DdpView};
use crate::wire::frame::{BodyView, DdpBodyView, FrameView, PacketView};
use crate::wire::llap::LlapView;
use crate::wire::nbp::{NbpTupleView, NbpView};
use crate::wire::rtmp::{NetworkTuple, RtmpView};
use crate::wire::zip::{ZipAtpView, ZipView};
use crate::wire::{Aarp, Addr, Echo, Func, Ipv4Addr, NbpFunc};

verus! {

/// A number of two bytes, the more significant first.
pub open spec fn at(p: Seq<u8>, i: int) -> int {
    p[i] * 256 + p[i + 1]
}

/// Law: a name is a length byte and as many bytes, each of which reads as
/// itself where it is printable ASCII and as a dot otherwise; a length that
/// overruns what is there is no name.
pub proof fn law_names(p: Seq<u8>)
    ensures
        wire::pstring_of(p) is Some == (p.len() > 0 && p.len() > p[0]),
        wire::pstring_of(p) matches Some((s, rest)) ==> {
            &&& s.len() == p[0] && rest == p.skip(1 + p[0])
            &&& forall|i: int|
                0 <= i < s.len() ==> (#[trigger] s[i]) == (if 0x20 <= p[1 + i] <= 0x7e {
                    p[1 + i] as char
                } else {
                    '.'
                })
        },
{
}

/// Law: a name of up to 32 printable characters is sent as its length and its
/// characters; of a longer one 32 bytes are sent.
pub proof fn law_names_are_sent(s: Seq<char>)
    ensures
        wire::name_ok(s) ==> wire::pname(s).len() == 1 + s.len() && wire::pname(s)[0] == s.len()
            && forall|i: int| 0 <= i < s.len() ==> (#[trigger] wire::pname(s)[1 + i]) == s[i] as u8,
        wire::pname(s).len() <= 33,
        wire::pname(s)[0] == wire::pname(s).len() - 1,
{
    if wire::name_ok(s) {
        wire::lemma_name_bytes(s);
    }
}

// ------------------------------------------------------------------------ links

/// Law: an Ethernet frame is two addresses and a type. Above 1500 the type is
/// the protocol, and all that follows the payload. Otherwise it is a length, and
/// the frame is ours only with the LLC bytes AA AA 03, with room for the eight
/// bytes of the SNAP header, and with the right OUI: 08 00 07 for DDP (809B), and
/// zeros for AARP (80F3).
pub proof fn law_frames(b: Seq<u8>)
    ensures
        b.len() < 14 ==> FrameView::parse(b) is None,
        b.len() >= 14 ==> {
            let n = at(b, 12);
            let proto = at(b, 20);
            let oui = (b[17], b[18], b[19]);
            let ours = b.len() >= 14 + n && n >= 8 && b[14] == 0xaa && b[15] == 0xaa && b[16] == 3
                && (proto == 0x809b ==> oui == (0x08u8, 0x00u8, 0x07u8)) && (proto == 0x80f3 ==> oui
                == (0u8, 0u8, 0u8));
            &&& FrameView::parse(b) is Some == (n > 1500 || ours)
            &&& FrameView::parse(b) matches Some(f) ==> {
                &&& f.dst == MacAddr(b[0], b[1], b[2], b[3], b[4], b[5])
                &&& f.src == MacAddr(b[6], b[7], b[8], b[9], b[10], b[11])
                &&& n > 1500 ==> !f.snap && f.proto == n && f.payload == b.skip(14)
                &&& n <= 1500 ==> f.snap && f.proto == proto && f.payload == b.subrange(22, 14 + n)
            }
        },
{
    if b.len() >= 14 {
        let n = at(b, 12);
        let body = b.skip(14);
        if n <= 1500 && b.len() >= 14 + n && n >= 8 {
            let oui = body.subrange(3, 6);
            assert(oui[0] == b[17] && oui[1] == b[18] && oui[2] == b[19]);
            if (b[17], b[18], b[19]) == (0x08u8, 0x00u8, 0x07u8) {
                assert(oui =~= seq![0x08u8, 0x00, 0x07]);
            }
            if (b[17], b[18], b[19]) == (0u8, 0u8, 0u8) {
                assert(oui =~= seq![0u8, 0, 0]);
            }
            assert(body.subrange(8, n) =~= b.subrange(22, 14 + n));
        }
    }
}

/// Law: a frame of protocol 80F3 is read as AARP and one of 809B as DDP, and a
/// datagram by its type: 1 and 5 RTMP, 2 NBP, 3 ATP, 4 AEP, 6 ZIP. What cannot be
/// followed is left undecoded, and a frame of another protocol is not AppleTalk.
pub proof fn law_what_frames_carry(b: Seq<u8>)
    ensures
        match FrameView::parse(b) {
            None => PacketView::decode(b) is None,
            Some(f) => {
                &&& PacketView::decode(b) is Some == (f.proto == 0x809b || f.proto == 0x80f3)
                &&& PacketView::decode(b) matches Some(k) ==> {
                    &&& k.frame == f
                    &&& f.proto == 0x80f3 ==> k.body == (match Aarp::spec_parse(f.payload) {
                        Some(a) => BodyView::Aarp(a),
                        None => BodyView::Unknown,
                    })
                    &&& f.proto == 0x809b ==> (match DdpView::parse(f.payload) {
                        Some(d) => k.body matches BodyView::Ddp(e, _) && e == d,
                        None => k.body == BodyView::Unknown,
                    })
                    &&& k.body matches BodyView::Ddp(d, inner) ==> {
                        &&& d.typ == 2 ==> inner == (match NbpView::parse(d.data) {
                            Some(x) => DdpBodyView::Nbp(x),
                            None => DdpBodyView::Unknown,
                        })
                        &&& d.typ == 3 ==> inner == (match AtpView::parse(d.data) {
                            Some(x) => DdpBodyView::Atp(x),
                            None => DdpBodyView::Unknown,
                        })
                        &&& d.typ == 4 ==> inner == (match AepView::parse(d.data) {
                            Some(x) => DdpBodyView::Aep(x),
                            None => DdpBodyView::Unknown,
                        })
                        &&& d.typ == 6 ==> inner == (match ZipView::parse(d.data) {
                            Some(x) => DdpBodyView::Zip(x),
                            None => DdpBodyView::Unknown,
                        })
                        &&& d.typ == 1 || d.typ == 5 ==> inner == (match RtmpView::parse(
                            d.typ,
                            d.data,
                        ) {
                            Some(x) => DdpBodyView::Rtmp(x),
                            None => DdpBodyView::Unknown,
                        })
                        &&& d.typ == 0 || d.typ > 6 ==> inner == DdpBodyView::Unknown
                    }
                }
            },
        },
{
}

/// Law: an LLAP packet is a destination, a source and a type. Types 81, 82, 84
/// and 85 are control packets without data; types 01 to 7F carry 2 to 600 bytes,
/// the low ten bits of whose first two are their number; anything else is none.
pub proof fn law_llap(p: Seq<u8>)
    ensures
        LlapView::parse(p) is Some == (p.len() >= 3 && (((p[2] == 0x81 || p[2] == 0x82 || p[2] == 0x84
            || p[2] == 0x85) && p.len() == 3) || (1 <= p[2] <= 0x7f && 5 <= p.len() <= 603 && (p[3]
            % 4) * 256 + p[4] == p.len() - 3))),
        LlapView::parse(p) matches Some(l) ==> l.dst == p[0] && l.src == p[1] && l.typ == p[2]
            && l.data == p.skip(3),
{
}

/// Law: an AARP packet is 28 bytes and more: the hardware and protocol types and
/// lengths, 00 01 80 9B 06 04, the operation, and twice six bytes of hardware
/// address, a zero, and a network and a node.
pub proof fn law_aarp(p: Seq<u8>)
    ensures
        Aarp::spec_parse(p) is Some == (p.len() >= 28 && p[0] == 0 && p[1] == 1 && p[2] == 0x80
            && p[3] == 0x9b && p[4] == 6 && p[5] == 4),
        Aarp::spec_parse(p) matches Some(a) ==> {
            &&& a.op == at(p, 6)
            &&& a.src_hw == MacAddr(p[8], p[9], p[10], p[11], p[12], p[13])
            &&& a.src.net == at(p, 15) && a.src.node == p[17]
            &&& a.dst_hw == MacAddr(p[18], p[19], p[20], p[21], p[22], p[23])
            &&& a.dst.net == at(p, 25) && a.dst.node == p[27]
        },
{
    if p.len() >= 28 {
        let h = p.take(6);
        assert(h[0] == p[0] && h[1] == p[1] && h[2] == p[2] && h[3] == p[3] && h[4] == p[4] && h[5]
            == p[5]);
        if p[0] == 0 && p[1] == 1 && p[2] == 0x80 && p[3] == 0x9b && p[4] == 6 && p[5] == 4 {
            assert(h =~= wire::aarp::prefix());
        }
    }
}

// -------------------------------------------------------------------- datagrams

/// Law: the extended header is thirteen bytes: four bits of hops and ten of
/// length, the checksum, both networks before both nodes, the sockets, the
/// destination before the source throughout, and the type; the rest is data.
pub proof fn law_ddp(p: Seq<u8>)
    ensures
        DdpView::parse(p) is Some == (p.len() >= 13),
        DdpView::parse(p) matches Some(d) ==> {
            &&& d.hops == (p[0] / 4) % 16 && d.length == (p[0] % 4) * 256 + p[1]
            &&& d.checksum == at(p, 2)
            &&& d.dst.net == at(p, 4) && d.src.net == at(p, 6)
            &&& d.dst.node == p[8] && d.src.node == p[9]
            &&& d.dst_socket == p[10] && d.src_socket == p[11] && d.typ == p[12]
            &&& d.data == p.skip(13)
        },
{
}

/// Law: a datagram is sent with its length in the header, counted anew, and its
/// own checksum; in the short form with the sockets and the type alone.
pub proof fn law_ddp_is_sent(d: DdpView)
    requires
        d.data.len() <= 586,
        d.hops < 16,
    ensures
        ({
            let n = 13 + d.data.len() as int;
            let b = d.bytes();
            &&& b.len() == n && b[0] == d.hops * 4 + n / 256 && b[1] == n % 256
            &&& at(b, 2) == d.checksum && at(b, 4) == d.dst.net && at(b, 6) == d.src.net
            &&& b[8] == d.dst.node && b[9] == d.src.node && b[10] == d.dst_socket && b[11]
                == d.src_socket && b[12] == d.typ && b.skip(13) == d.data
        }),
        ({
            let n = 5 + d.data.len() as int;
            let b = d.short_bytes();
            &&& b.len() == n && b[0] == n / 256 && b[1] == n % 256
            &&& b[2] == d.dst_socket && b[3] == d.src_socket && b[4] == d.typ && b.skip(5) == d.data
        }),
{
    broadcast use crate::wire::lemma_be16;

    assert(d.bytes().skip(13) =~= d.data);
    assert(d.short_bytes().skip(5) =~= d.data);
}

/// Law: the checksum takes in one byte after the other: it adds the byte and
/// turns the sum left by one bit; what comes to 0 is FFFF.
pub proof fn law_checksum(b: Seq<u8>, x: u8)
    ensures
        sum_of(Seq::<u8>::empty()) == 0,
        ({
            let s = (sum_of(b) + x) % 0x10000;
            sum_of(b.push(x)) == (s * 2) % 0x10000 + s / 0x8000
        }),
        checksum_of(b) == (if sum_of(b) == 0 {
            0xffff
        } else {
            sum_of(b) as int
        }),
{
    assert(b.push(x).drop_last() =~= b);
}

/// Law: what the checksum covers is everything behind it: addresses, sockets,
/// type and data.
pub proof fn law_checksum_covers(d: DdpView)
    ensures
        d.summed() == d.bytes().skip(4),
{
    broadcast use crate::wire::lemma_be16;

    assert(d.summed() =~= d.bytes().skip(4));
}

/// Law: an ATP packet is a control byte, whose two high bits say 1 request, 2
/// response or 3 release, a bitmap or sequence number, a transaction ID, four
/// user bytes, and data.
pub proof fn law_atp(p: Seq<u8>)
    ensures
        AtpView::parse(p) is Some == (p.len() >= 8 && p[0] >= 64),
        AtpView::parse(p) matches Some(a) ==> {
            &&& a.func == Func::Req <==> 64 <= p[0] < 128
            &&& a.func == Func::Resp <==> 128 <= p[0] < 192
            &&& a.func == Func::Rel <==> 192 <= p[0]
            &&& a.control == p[0] && a.bitmap == p[1] && a.tid == at(p, 2)
            &&& a.user_bytes == p.subrange(4, 8) && a.data == p.skip(8)
        },
{
}

/// Law: an echo packet is 1 for a request or 2 for a reply, and data.
pub proof fn law_aep(p: Seq<u8>)
    ensures
        AepView::parse(p) is Some == (p.len() > 0 && (p[0] == 1 || p[0] == 2)),
        AepView::parse(p) matches Some(a) ==> (a.func == Echo::Request <==> p[0] == 1) && (a.func
            == Echo::Reply <==> p[0] == 2) && a.data == p.skip(1),
{
}

/// Law: an NBP packet is a function, 1 BrRq, 2 LkUp, 3 LkUp-Reply or 4 FwdReq, a
/// count and an ID; each tuple is a network, a node, a socket, an enumerator, and
/// the object, the type and the zone.
pub proof fn law_nbp(p: Seq<u8>)
    ensures
        NbpView::parse(p) matches Some(n) ==> {
            &&& p.len() >= 2 && n.id == p[1] && n.tuples.len() == p[0] % 16
            &&& n.func == NbpFunc::BrRq <==> p[0] / 16 == 1
            &&& n.func == NbpFunc::LkUp <==> p[0] / 16 == 2
            &&& n.func == NbpFunc::LkUpReply <==> p[0] / 16 == 3
            &&& n.func == NbpFunc::FwdReq <==> p[0] / 16 == 4
        },
        NbpView::parse(p) is Some == (p.len() >= 2 && 1 <= p[0] / 16 <= 4 && wire::nbp::tuples_of(
            p.skip(2),
            (p[0] % 16) as nat,
        ) is Some),
        NbpView::parse(p) matches Some(n) ==> wire::nbp::tuples_of(p.skip(2), (p[0] % 16) as nat)
            == Some((n.tuples, (wire::nbp::tuples_of(p.skip(2), (p[0] % 16) as nat)->0).1)),
        NbpTupleView::parse(p) is Some == (p.len() >= 5 && wire::pstring_of(p.skip(5)) is Some
            && wire::pstring_of((wire::pstring_of(p.skip(5))->0).1) is Some && wire::pstring_of(
            (wire::pstring_of((wire::pstring_of(p.skip(5))->0).1)->0).1,
        ) is Some),
        NbpTupleView::parse(p) matches Some((t, rest)) ==> {
            &&& p.len() >= 5 && t.addr.net == at(p, 0) && t.addr.node == p[2] && t.socket == p[3]
                && t.enumerator == p[4]
            &&& wire::pstring_of(p.skip(5)) matches Some((object, r1))
            &&& wire::pstring_of(r1) matches Some((typ, r2))
            &&& wire::pstring_of(r2) matches Some((zone, r3))
            &&& t.object == object && t.typ == typ && t.zone == zone && rest == r3
        },
{
    if p.len() >= 2 {
        lemma_nbp_count(p.skip(2), (p[0] % 16) as nat);
    }
}

/// Law: as many NBP tuples are read as are asked for, one behind the other.
pub proof fn law_nbp_tuples(p: Seq<u8>, n: nat)
    ensures
        wire::nbp::tuples_of(p, 0) == Some((Seq::<NbpTupleView>::empty(), p)),
        n > 0 ==> ({
            let first = NbpTupleView::parse(p);
            let then = wire::nbp::tuples_of((first->0).1, (n - 1) as nat);
            &&& wire::nbp::tuples_of(p, n) is Some == (first is Some && then is Some)
            &&& wire::nbp::tuples_of(p, n) matches Some((ts, rest)) ==> ts.len() == n && ts[0]
                == (first->0).0 && ts.drop_first() == (then->0).0 && rest == (then->0).1
        }),
{
    if n > 0 {
        lemma_nbp_count(p, n);
        if let Some((ts, _)) = wire::nbp::tuples_of(p, n) {
            let first = NbpTupleView::parse(p)->0;
            let then = wire::nbp::tuples_of(first.1, (n - 1) as nat)->0;
            assert(ts == seq![first.0] + then.0);
            assert(ts.drop_first() =~= then.0);
        }
    }
}

proof fn lemma_nbp_count(p: Seq<u8>, n: nat)
    ensures
        wire::nbp::tuples_of(p, n) matches Some((ts, _)) ==> ts.len() == n,
    decreases n,
{
    if n > 0 {
        if let Some((_, rest)) = NbpTupleView::parse(p) {
            lemma_nbp_count(rest, (n - 1) as nat);
        }
    }
}

// --------------------------------------------------------------------- routing

/// Law: a network tuple is a network and a distance; with the high bit of the
/// distance set, the end of the range and one more byte follow.
pub proof fn law_network_tuple(p: Seq<u8>, t: NetworkTuple, trailer: u8)
    ensures
        NetworkTuple::spec_parse(p) is Some == (p.len() >= 3 && (p[2] < 0x80 || p.len() >= 6)),
        NetworkTuple::spec_parse(p) matches Some((x, rest)) ==> {
            &&& x.range.0 == at(p, 0) && x.distance == p[2] % 0x80 && x.extended == (p[2] >= 0x80)
            &&& !x.extended ==> x.range.1 == x.range.0 && rest == p.skip(3)
            &&& x.extended ==> x.range.1 == at(p, 3) && rest == p.skip(6)
        },
        t.distance < 0x80 ==> {
            let b = t.bytes(trailer);
            &&& at(b, 0) == t.range.0
            &&& !t.extended ==> b.len() == 3 && b[2] == t.distance
            &&& t.extended ==> b.len() == 6 && b[2] == 0x80 + t.distance && at(b, 3) == t.range.1
                && b[5] == trailer
        },
{
    broadcast use crate::wire::lemma_be16;

}

/// Law: RTMP Data is the sender's network, an 8, its node, and on an extended
/// network the tuple of its range, or 00 00 82 on another; a datagram of type 5
/// is one byte: 1 a Request, 2 a Route Data Request with split horizon and 3 one
/// without.
pub proof fn law_rtmp(p: Seq<u8>, sender: Addr, range: (u16, u16), ts: Seq<NetworkTuple>)
    ensures
        RtmpView::parse(5, p) is Some == (p.len() == 1 && 1 <= p[0] <= 3),
        p.len() == 1 && p[0] == 1 ==> RtmpView::parse(5, p) == Some(RtmpView::Request),
        p.len() == 1 && p[0] == 2 ==> RtmpView::parse(5, p) == Some(
            RtmpView::Rdr { split_horizon: true },
        ),
        p.len() == 1 && p[0] == 3 ==> RtmpView::parse(5, p) == Some(
            RtmpView::Rdr { split_horizon: false },
        ),
        RtmpView::parse(1, p) matches Some(r) ==> (r matches RtmpView::Data {
            sender: s,
            range: x,
            ..
        } && p.len() >= 7 && p[2] == 8 && s.net == at(p, 0) && s.node == p[3] && (x is None
            <==> p[4] == 0 && p[5] == 0 && p[6] == 0x82) && (x matches Some(y) ==> p.len() >= 10
            && p[6] >= 0x80 && y.0 == at(p, 4) && y.1 == at(p, 7))),
        ({
            let marked = p[4] == 0 && p[5] == 0 && p[6] == 0x82;
            let tail = if marked {
                p.skip(7)
            } else {
                p.skip(10)
            };
            let own = marked || (p.len() >= 10 && p[6] >= 0x80);
            let read = wire::rtmp::tuples_of(tail);
            &&& RtmpView::parse(1, p) is Some == (p.len() >= 7 && p[2] == 8 && own && read is Some)
            &&& RtmpView::parse(1, p) matches Some(RtmpView::Data { tuples, .. }) ==> read == Some(
                tuples,
            )
        }),
        ({
            let e = (RtmpView::Data { sender, range: Some(range), tuples: ts }).bytes();
            let n = (RtmpView::Data { sender, range: None, tuples: ts }).bytes();
            &&& e.len() >= 10 && at(e, 0) == sender.net && e[2] == 8 && e[3] == sender.node && at(
                e,
                4,
            ) == range.0 && e[6] == 0x80 && at(e, 7) == range.1 && e[9] == 0x82
            &&& n.len() >= 7 && at(n, 0) == sender.net && n[2] == 8 && n[3] == sender.node && n[4]
                == 0 && n[5] == 0 && n[6] == 0x82
        }),
{
    broadcast use crate::wire::lemma_be16;

    if p.len() >= 7 {
        let r = p.skip(4);
        let h = r.take(3);
        assert(h[0] == p[4] && h[1] == p[5] && h[2] == p[6]);
        if p[4] == 0 && p[5] == 0 && p[6] == 0x82 {
            assert(h =~= wire::rtmp::version_marker());
        }
        assert(r.skip(3) =~= p.skip(7));
        if p.len() >= 10 {
            assert(r.skip(6) =~= p.skip(10));
        }
    }
}

/// Law: network tuples are read one behind the other until nothing is left.
pub proof fn law_network_tuples(p: Seq<u8>)
    ensures
        p.len() == 0 ==> wire::rtmp::tuples_of(p) == Some(Seq::<NetworkTuple>::empty()),
        p.len() > 0 ==> ({
            let first = NetworkTuple::spec_parse(p);
            let then = wire::rtmp::tuples_of((first->0).1);
            &&& wire::rtmp::tuples_of(p) is Some == (first is Some && then is Some)
            &&& wire::rtmp::tuples_of(p) matches Some(ts) ==> ts.len() > 0 && ts[0] == (first->0).0
                && ts.drop_first() == then->0
        }),
{
    if p.len() > 0 {
        if let Some(ts) = wire::rtmp::tuples_of(p) {
            let first = NetworkTuple::spec_parse(p)->0;
            let then = wire::rtmp::tuples_of(first.1)->0;
            assert(ts == seq![first.0] + then);
            assert(ts.drop_first() =~= then);
        }
    }
}

// ----------------------------------------------------------------------- zones

/// Law: a ZIP packet begins with its function: 1 a query for as many networks as
/// the next byte says, 2 a reply and 8 an extended one, 5 GetNetInfo with the
/// zone behind four bytes, 6 its reply, 7 a notice. Anything else is none.
pub proof fn law_zip(p: Seq<u8>)
    ensures
        p.len() < 2 || p[0] == 0 || p[0] == 3 || p[0] == 4 || p[0] > 8 ==> ZipView::parse(p) is None,
        p.len() >= 2 && p[0] == 1 ==> ZipView::parse(p) is Some == (p.len() >= 2 + 2 * p[1]),
        p.len() >= 2 && (p[0] == 2 || p[0] == 8) ==> ({
            let read = wire::zip::zones_of(p.skip(2), p[1] as nat);
            &&& ZipView::parse(p) is Some == read is Some
            &&& ZipView::parse(p) matches Some(ZipView::Reply { zones, .. }) ==> read == Some(zones)
        }),
        p.len() >= 2 && p[0] == 5 ==> ZipView::parse(p) is Some == (p.len() >= 6 && wire::pstring_of(
            p.skip(6),
        ) is Some),
        p.len() >= 2 && p[0] == 6 ==> ({
            let rest = (wire::pstring_of(p.skip(6))->0).1;
            ZipView::parse(p) is Some == (p.len() >= 6 && wire::pstring_of(p.skip(6)) is Some && (
            (rest.len() >= 1 && rest[0] == 0) || (rest.len() >= 7 && rest[0] == 6)) && (p[1] >= 0x80
                ==> wire::pstring_of(rest.skip(1 + rest[0])) is Some))
        }),
        p.len() >= 2 && p[0] == 7 ==> ZipView::parse(p) == Some(ZipView::Notify),
        ZipView::parse(p) matches Some(z) ==> {
            &&& p[0] == 1 <==> z is Query
            &&& p[0] == 2 || p[0] == 8 <==> z is Reply
            &&& p[0] == 5 <==> z is GetNetInfo
            &&& p[0] == 6 <==> z is NetInfoReply
            &&& p[0] == 7 <==> z is Notify
            &&& z matches ZipView::Query { nets } ==> nets.len() == p[1] && forall|i: int|
                0 <= i < nets.len() ==> (#[trigger] nets[i]) == at(p, 2 + 2 * i)
            &&& z matches ZipView::Reply { zones, extended } ==> zones.len() == p[1] && extended == (
            p[0] == 8)
            &&& z matches ZipView::GetNetInfo { zone } ==> (wire::pstring_of(p.skip(6)) matches
                Some((s, _)) && s == zone)
            &&& z matches ZipView::NetInfoReply { flags, range, zone, multicast, default_zone } ==> {
                &&& p.len() >= 6 && flags == p[1] && range.0 == at(p, 2) && range.1 == at(p, 4)
                &&& wire::pstring_of(p.skip(6)) matches Some((s, rest))
                &&& s == zone && rest.len() > 0 && (rest[0] == 0 || rest[0] == 6)
                &&& rest[0] == 0 <==> multicast is None
                &&& multicast matches Some(m) ==> m == MacAddr(
                    rest[1],
                    rest[2],
                    rest[3],
                    rest[4],
                    rest[5],
                    rest[6],
                )
                &&& default_zone is Some <==> flags >= 0x80
                &&& default_zone matches Some(d) ==> (wire::pstring_of(rest.skip(1 + rest[0]))
                    matches Some((t, _)) && t == d)
            }
        },
{
    if p.len() >= 2 && (p[0] == 2 || p[0] == 8) {
        lemma_zone_count(p.skip(2), p[1] as nat);
    }
    if p.len() >= 2 && p[0] == 1 && p.len() >= 2 + 2 * p[1] {
        let q = p.subrange(2, 2 + 2 * p[1]);
        assert(q.len() / 2 == p[1]);
        assert forall|i: int| 0 <= i < p[1] implies (#[trigger] wire::zip::numbers_of(q)[i]) == at(
            p,
            2 + 2 * i,
        ) by {
            assert(q[2 * i] == p[2 + 2 * i] && q[2 * i + 1] == p[3 + 2 * i]);
        }
    }
}

proof fn lemma_zone_count(p: Seq<u8>, n: nat)
    ensures
        wire::zip::zones_of(p, n) matches Some(zs) ==> zs.len() == n,
    decreases n,
{
    if n > 0 && p.len() >= 2 {
        if let Some((_, rest)) = wire::pstring_of(p.skip(2)) {
            lemma_zone_count(rest, (n - 1) as nat);
        }
    }
}

/// Law: each pair of a ZIP reply is a network and a name, one behind the other.
pub proof fn law_zip_pairs(p: Seq<u8>, n: nat)
    requires
        n > 0,
    ensures
        wire::zip::zones_of(p, n) is Some == (p.len() >= 2 && wire::pstring_of(p.skip(2)) is Some
            && wire::zip::zones_of((wire::pstring_of(p.skip(2))->0).1, (n - 1) as nat) is Some),
        wire::zip::zones_of(p, 0) == Some(Seq::<(u16, Seq<char>)>::empty()),
        wire::zip::zones_of(p, n) matches Some(zs) ==> {
            &&& p.len() >= 2
            &&& wire::pstring_of(p.skip(2)) matches Some((name, rest))
            &&& zs.len() == n && zs[0].0 == at(p, 0) && zs[0].1 == name
            &&& wire::zip::zones_of(rest, (n - 1) as nat) == Some(zs.drop_first())
        },
{
    lemma_zone_count(p, n);
    if let Some(zs) = wire::zip::zones_of(p, n) {
        let (name, rest) = wire::pstring_of(p.skip(2))->0;
        let tail = wire::zip::zones_of(rest, (n - 1) as nat)->0;
        assert(zs == seq![(wire::u16_at(p, 0), name)] + tail);
        assert(zs.drop_first() =~= tail);
    }
}

/// Law: a zone list reply over ATP says in its user bytes whether it is the last
/// and how many names it holds, and holds that many, one behind the other.
pub proof fn law_zone_list_reply(user: Seq<u8>, data: Seq<u8>, n: nat)
    requires
        user.len() == 4,
    ensures
        ZipAtpView::parse_reply(user, data) matches Some(z) ==> (z matches ZipAtpView::Reply {
            last,
            zones,
        } && last == (user[0] != 0) && zones.len() == at(user, 2)),
        ZipAtpView::parse_reply(user, data) is Some == wire::zip::names_of(
            data,
            at(user, 2) as nat,
        ) is Some,
        ZipAtpView::parse_reply(user, data) matches Some(ZipAtpView::Reply { zones, .. })
            ==> wire::zip::names_of(data, at(user, 2) as nat) == Some(zones),
        wire::zip::names_of(data, 0) == Some(Seq::<Seq<char>>::empty()),
        n > 0 ==> wire::zip::names_of(data, n) is Some == (wire::pstring_of(data) is Some
            && wire::zip::names_of((wire::pstring_of(data)->0).1, (n - 1) as nat) is Some),
        n > 0 ==> (wire::zip::names_of(data, n) matches Some(ns) ==> {
            &&& wire::pstring_of(data) matches Some((name, rest))
            &&& ns.len() == n && ns[0] == name
            &&& wire::zip::names_of(rest, (n - 1) as nat) == Some(ns.drop_first())
        }),
{
    lemma_name_count(data, wire::u16_at(user, 2) as nat);
    if n > 0 {
        lemma_name_count(data, n);
        if let Some(ns) = wire::zip::names_of(data, n) {
            let (name, rest) = wire::pstring_of(data)->0;
            let tail = wire::zip::names_of(rest, (n - 1) as nat)->0;
            assert(ns == seq![name] + tail);
            assert(ns.drop_first() =~= tail);
        }
    }
}

proof fn lemma_name_count(p: Seq<u8>, n: nat)
    ensures
        wire::zip::names_of(p, n) matches Some(ns) ==> ns.len() == n,
    decreases n,
{
    if n > 0 {
        if let Some((_, rest)) = wire::pstring_of(p) {
            lemma_name_count(rest, (n - 1) as nat);
        }
    }
}

// ------------------------------------------------------------------- the tunnel

/// Law: a packet of the tunnel is sent as the destination's identifier, the
/// source's, version 1, two zeros, and type 2 for data or 3 for routing; routing
/// goes on with the connection, the sequence number, the command and its flags.
/// An identifier is 07 01 00 00 and the address, or 01 00 for none.
pub proof fn law_tunnel_packets(
    dst: Ipv4Addr,
    src: Ipv4Addr,
    conn: u16,
    seq: u16,
    cmd: CmdView,
    ddp: Seq<u8>,
)
    ensures
        ({
            let dh = DomainHeader { dst: Di::Ip(dst), src: Di::Ip(src) };
            let b = (AurpView::Routing { dh, conn, seq, cmd }).bytes();
            let d = (AurpView::Data { dh, ddp }).bytes();
            &&& b.len() == 30 + cmd.body().len() && b.skip(30) == cmd.body()
            &&& b[0] == 7 && b[1] == 1 && b[2] == 0 && b[3] == 0 && b[4] == dst.0 && b[5] == dst.1
                && b[6] == dst.2 && b[7] == dst.3
            &&& b[8] == 7 && b[9] == 1 && b[12] == src.0 && b[13] == src.1 && b[14] == src.2 && b[15]
                == src.3
            &&& at(b, 16) == 1 && at(b, 18) == 0 && at(b, 20) == 3
            &&& at(b, 22) == conn && at(b, 24) == seq && at(b, 26) == cmd.code() && at(b, 28)
                == cmd.flags()
            &&& d.len() == 22 + ddp.len() && at(d, 16) == 1 && at(d, 20) == 2 && d.skip(22) == ddp
        }),
        Di::Null.bytes() =~= seq![1u8, 0u8],
{
    broadcast use crate::wire::lemma_be16;

    let dh = DomainHeader { dst: Di::Ip(dst), src: Di::Ip(src) };
    let b = (AurpView::Routing { dh, conn, seq, cmd }).bytes();
    let d = (AurpView::Data { dh, ddp }).bytes();
    assert(b.skip(30) =~= cmd.body());
    assert(d.skip(22) =~= ddp);
}

/// Law: each command has its number; the last packet of a series sets 8000 in
/// the flags, an ack that asks for zones 4000, and what updates are wanted 7800.
pub proof fn law_commands(c: CmdView)
    ensures
        c.code() == (match c {
            CmdView::RiReq { .. } => 1int,
            CmdView::RiRsp { .. } => 2,
            CmdView::RiAck { .. } => 3,
            CmdView::RiUpd { .. } => 4,
            CmdView::Rd { .. } => 5,
            CmdView::ZiReq { .. } | CmdView::GznReq { .. } | CmdView::GdzlReq { .. } => 6,
            CmdView::ZiRsp { .. } | CmdView::GznRsp { .. } | CmdView::GdzlRsp { .. } => 7,
            CmdView::OpenReq { .. } => 8,
            CmdView::OpenRsp { .. } => 9,
            CmdView::Tickle => 14,
            CmdView::TickleAck => 15,
        }),
        c matches CmdView::RiRsp { last, .. } ==> c.flags() == (if last {
            0x8000int
        } else {
            0
        }),
        c matches CmdView::GdzlRsp { last, .. } ==> c.flags() == (if last {
            0x8000int
        } else {
            0
        }),
        c matches CmdView::RiAck { szi } ==> c.flags() == (if szi {
            0x4000int
        } else {
            0
        }),
        c matches CmdView::RiReq { sui } ==> (sui == 0x7800 ==> c.flags() == 0x7800),
        c matches CmdView::OpenReq { sui, .. } ==> (sui == 0x7800 ==> c.flags() == 0x7800),
{
}

/// Law: the bodies with fields of their own: an RD is its code; an Open-Req its
/// version and an Open-Rsp its rate or error, each with the number of options
/// behind it; questions and answers about zones begin with their subcode, and a
/// zone answer goes on with a count.
pub proof fn law_command_bodies(c: CmdView)
    ensures
        ({
            let b = c.body();
            &&& c matches CmdView::Rd { code } ==> b.len() == 2 && at(b, 0) == (if code < 0 {
                code + 0x10000
            } else {
                code as int
            })
            &&& c matches CmdView::OpenReq { version, options, .. } ==> at(b, 0) == version && (
            options.len() < 256 ==> b[2] == options.len())
            &&& c matches CmdView::OpenRsp { rate_or_err, options, .. } ==> at(b, 0) == (
            if rate_or_err < 0 {
                rate_or_err + 0x10000
            } else {
                rate_or_err as int
            }) && (options.len() < 256 ==> b[2] == options.len())
            &&& c matches CmdView::ZiReq { nets } ==> at(b, 0) == 1
            &&& c matches CmdView::ZiRsp { extended, zones } ==> at(b, 0) == (if extended is Some {
                2int
            } else {
                1
            }) && (extended matches Some(n) ==> at(b, 2) == n) && (extended is None && zones.len()
                < 0x10000 ==> at(b, 2) == zones.len()) && b.skip(4) == wire::aurp::zone_bytes(zones)
            &&& c is GznReq || c is GznRsp ==> at(b, 0) == 3
            &&& c is GdzlReq || c is GdzlRsp ==> at(b, 0) == 4
            &&& c is RiReq || c is RiAck || c is Tickle || c is TickleAck ==> b.len() == 0
        }),
{
    broadcast use crate::wire::lemma_be16;

    if let CmdView::ZiRsp { zones, .. } = c {
        assert(c.body().skip(4) =~= wire::aurp::zone_bytes(zones));
    }
}

/// Law: an event is its code and a network tuple without a trailing byte; event
/// 0 is one byte.
pub proof fn law_events(e: EventTuple)
    requires
        e.tuple.distance < 0x80,
    ensures
        ({
            let b = e.bytes();
            let t = e.tuple;
            &&& b[0] == e.code
            &&& e.code == 0 ==> b.len() == 1
            &&& e.code != 0 ==> at(b, 1) == t.range.0
            &&& e.code != 0 && !t.extended ==> b.len() == 4 && b[3] == t.distance
            &&& e.code != 0 && t.extended ==> b.len() == 6 && b[3] == 0x80 + t.distance && at(b, 4)
                == t.range.1
        }),
{
    broadcast use crate::wire::lemma_be16;

}

/// Law: in a zone answer each tuple is a network and a name; a name that stands
/// in it already is two bytes, 8000 and how many bytes stand before the tuple
/// that spells it out.
pub proof fn law_zone_tuples(zs: Seq<(u16, Seq<char>)>, net: u16, name: Seq<char>)
    ensures
        ({
            let b = wire::aurp::zone_bytes(zs);
            let w = wire::aurp::zone_bytes(zs.push((net, name)));
            let k = b.len() as int;
            let fresh = forall|i: int| 0 <= i < zs.len() ==> (#[trigger] zs[i]).1 != name;
            &&& w.len() >= k + 3 && w.take(k) == b && at(w, k) == net
            &&& fresh ==> w.skip(k + 2) == wire::pname(name)
            &&& forall|i: int|
                0 <= i < zs.len() && (#[trigger] zs[i]).1 == name && (forall|j: int|
                    0 <= j < i ==> (#[trigger] zs[j]).1 != name) && wire::aurp::zone_bytes(
                    zs.take(i),
                ).len() < 0x8000 ==> w.len() == k + 4 && at(w, k + 2) == 0x8000
                    + wire::aurp::zone_bytes(zs.take(i)).len()
        }),
{
    broadcast use crate::wire::lemma_be16;

    let all = zs.push((net, name));
    let b = wire::aurp::zone_bytes(zs);
    let w = wire::aurp::zone_bytes(all);
    let k = b.len() as int;
    assert(all.drop_last() =~= zs);
    assert(w =~= b + wire::be16(net) + wire::aurp::zone_ref(zs, name));
    assert(w.take(k) =~= b);
    assert(w[k] == wire::be16(net)[0] && w[k + 1] == wire::be16(net)[1]);
    assert(w.skip(k + 2) =~= wire::aurp::zone_ref(zs, name));
    assert forall|i: int|
        0 <= i < zs.len() && (#[trigger] zs[i]).1 == name && (forall|j: int|
            0 <= j < i ==> (#[trigger] zs[j]).1 != name) && wire::aurp::zone_bytes(
            zs.take(i),
        ).len() < 0x8000 implies w.len() == k + 4 && at(w, k + 2) == 0x8000 + wire::aurp::zone_bytes(
        zs.take(i),
    ).len() by {
        assert(wire::aurp::named(zs, name));
        lemma_first_named(zs, name, i);
        let off = wire::aurp::zone_bytes(zs.take(i)).len();
        assert(w[k + 2] == wire::be16((0x8000 + off) as u16)[0]);
        assert(w[k + 3] == wire::be16((0x8000 + off) as u16)[1]);
    }
}

proof fn lemma_first_named(zs: Seq<(u16, Seq<char>)>, name: Seq<char>, i: int)
    requires
        0 <= i < zs.len(),
        zs[i].1 == name,
        forall|j: int| 0 <= j < i ==> (#[trigger] zs[j]).1 != name,
    ensures
        wire::aurp::first_named(zs, name) == i,
    decreases zs.len(),
{
    let a = zs.drop_last();
    if i < a.len() {
        assert(a[i].1 == name);
        assert(wire::aurp::named(a, name));
        assert forall|j: int| 0 <= j < i implies (#[trigger] a[j]).1 != name by {
            assert(a[j] == zs[j]);
        }
        lemma_first_named(a, name, i);
    } else if wire::aurp::named(a, name) {
        let j = choose|j: int| 0 <= j < a.len() && (#[trigger] a[j]).1 == name;
        assert(zs[j].1 != name);
    }
}

/// Law: a zone is reached on Ethernet at 09:00:07:00:00 and, last, the checksum
/// of its name, the ASCII letters in upper case, modulo 253.
pub proof fn law_zone_multicast(zone: Seq<char>, folded: Seq<u8>)
    requires
        wire::name_ok(zone),
        folded.len() == zone.len(),
        forall|i: int|
            0 <= i < folded.len() ==> (#[trigger] folded[i]) == (if 'a' <= zone[i] <= 'z' {
                zone[i] as int - 32
            } else {
                zone[i] as int
            }),
    ensures
        ({
            let m = wire::zip::multicast_of(zone);
            &&& m.0 == 9 && m.1 == 0 && m.2 == 7 && m.3 == 0 && m.4 == 0
            &&& m.5 == checksum_of(folded) % 253
        }),
{
    wire::lemma_name_bytes(zone);
    let b = wire::name_bytes(zone);
    assert forall|i: int| 0 <= i < b.len() implies wire::zip::upper(b)[i] == folded[i] by {
        reveal(wire::name_ok);
        assert(b[i] == zone[i] as u8);
        assert(' ' <= zone[i] <= '~');
    }
    assert(wire::zip::upper(b) =~= folded);
}

} // verus!
