//! The link layer on Ethernet, and the decode tree: one captured frame
//! followed as far down the stack as its bytes allow.

use vstd::prelude::*;
use vstd::slice::*;

use crate::fmt;
use crate::wire;
use crate::wire::aarp::Aarp;
use crate::wire::aep::{Aep, AepView};
use crate::wire::atp::{Atp, AtpView};
use crate::wire::ddp::{Ddp, DdpView};
use crate::wire::nbp::{Nbp, NbpView};
use crate::wire::rtmp::{Rtmp, RtmpView};
use crate::wire::zip::{Zip, ZipView};
use crate::wire::{push16, push_bytes, push_mac, read16, tail_of, Encode, MacAddr, AARP, DDP, DDP_AEP, DDP_ATP, DDP_NBP, DDP_RTMP_DATA, DDP_RTMP_REQ, DDP_ZIP};

verus! {

/// The shortest frame Ethernet carries, check sequence not counted.
pub const MIN_FRAME: usize = 60;

/// The longest payload; a larger type field is an EtherType, not a length.
pub const MAX_LENGTH: u16 = 1500;

/// An Ethernet frame carrying AppleTalk (ELAP).
#[derive(Debug, PartialEq, Eq)]
pub struct Frame {
    pub dst: MacAddr,
    pub src: MacAddr,
    /// EtherType, or the SNAP protocol when `snap` is set.
    pub proto: u16,
    /// True for Phase 2: IEEE 802.3 + 802.2 LLC + SNAP.
    pub snap: bool,
    /// Owned, so a decoded packet can outlive the buffer it was read into.
    pub payload: Vec<u8>,
}

/// What a frame says.
pub struct FrameView {
    pub dst: MacAddr,
    pub src: MacAddr,
    pub proto: u16,
    pub snap: bool,
    pub payload: Seq<u8>,
}

/// Filled up with zeros to the Ethernet minimum.
pub open spec fn padded(b: Seq<u8>) -> Seq<u8> {
    if b.len() < MIN_FRAME {
        b + Seq::new((MIN_FRAME - b.len()) as nat, |i: int| 0u8)
    } else {
        b
    }
}

/// AppleTalk's OUI, which DDP is named under; AARP's is zero.
pub open spec fn apple_oui() -> Seq<u8> {
    seq![0x08u8, 0x00, 0x07]
}

/// A protocol of ours under an OUI that is not its own.
pub open spec fn foreign(oui: Seq<u8>, proto: u16) -> bool {
    (proto == DDP && oui != apple_oui()) || (proto == AARP && oui != seq![0u8, 0, 0])
}

impl FrameView {
    /// Phase 2 EtherTalk is 802.3 (the type field is a *length*) + LLC + SNAP,
    /// so the real protocol number sits 8 bytes further in. Phase 1 used a
    /// plain EtherType. Non-SNAP LLC frames are nothing of ours, and neither is
    /// a protocol of ours under a foreign OUI.
    pub open spec fn parse(b: Seq<u8>) -> Option<FrameView> {
        if b.len() < 14 {
            None
        } else {
            let dst = MacAddr::of(b.subrange(0, 6));
            let src = MacAddr::of(b.subrange(6, 12));
            let typelen = wire::u16_at(b, 12);
            let body = b.skip(14);
            if typelen > MAX_LENGTH {
                Some(FrameView { dst, src, proto: typelen, snap: false, payload: body })
            } else if body.len() < typelen || typelen < 8 || body[0] != 0xaa || body[1] != 0xaa
                || body[2] != 0x03 || foreign(body.subrange(3, 6), wire::u16_at(body, 6)) {
                None
            } else {
                Some(
                    FrameView {
                        dst,
                        src,
                        proto: wire::u16_at(body, 6),
                        snap: true,
                        payload: body.subrange(8, typelen as int),
                    },
                )
            }
        }
    }

    /// DSAP AA, SSAP AA, control 03, 3-byte OUI, 2-byte protocol. AARP's OUI
    /// is zero; everything else carries AppleTalk's.
    pub open spec fn snap_header(self) -> Seq<u8> {
        seq![0xaau8, 0xaa, 0x03] + (if self.proto == AARP {
            seq![0u8, 0, 0]
        } else {
            apple_oui()
        }) + wire::be16(self.proto)
    }

    /// The frame as it stands before padding.
    pub open spec fn unpadded(self) -> Seq<u8> {
        self.dst.bytes() + self.src.bytes() + (if self.snap {
            wire::be16(((8 + self.payload.len()) % 0x10000) as u16) + self.snap_header()
        } else {
            wire::be16(self.proto)
        }) + self.payload
    }

    pub open spec fn bytes(self) -> Seq<u8> {
        padded(self.unpadded())
    }

    pub open spec fn text(self) -> Seq<char> {
        self.src.text() + " > "@ + self.dst.text() + "  "@ + proto_name(self.proto) + " (0x"@
            + fmt::hex(self.proto as nat, 4) + ")  phase "@ + (if self.snap {
            "2"@
        } else {
            "1"@
        }) + "  "@ + fmt::dec(self.payload.len()) + " bytes"@
    }
}

pub open spec fn proto_name(proto: u16) -> Seq<char> {
    if proto == DDP {
        "DDP"@
    } else if proto == AARP {
        "AARP"@
    } else {
        "?"@
    }
}

impl DeepView for Frame {
    type V = FrameView;

    open spec fn deep_view(&self) -> FrameView {
        FrameView {
            dst: self.dst,
            src: self.src,
            proto: self.proto,
            snap: self.snap,
            payload: self.payload@,
        }
    }
}

impl Clone for Frame {
    fn clone(&self) -> (r: Frame)
        ensures
            r.deep_view() == self.deep_view(),
    {
        Frame {
            dst: self.dst,
            src: self.src,
            proto: self.proto,
            snap: self.snap,
            payload: slice_to_vec(self.payload.as_slice()),
        }
    }
}

impl Frame {
    pub fn parse(b: &[u8]) -> (r: Option<Frame>)
        ensures
            r.deep_view() == FrameView::parse(b@),
    {
        if b.len() < 14 {
            return None;
        }
        let dst = MacAddr(b[0], b[1], b[2], b[3], b[4], b[5]);
        let src = MacAddr(b[6], b[7], b[8], b[9], b[10], b[11]);
        let typelen = read16(b, 12);
        if typelen > MAX_LENGTH {
            let payload = tail_of(b, 14);
            return Some(Frame { dst, src, proto: typelen, snap: false, payload });
        }
        // 802.3: trim the padding Ethernet added to reach the 60-byte minimum.
        let body = slice_subrange(b, 14, b.len());
        assert(body@ =~= b@.skip(14));
        if body.len() < typelen as usize || typelen < 8 {
            return None;
        }
        // DSAP AA, SSAP AA, control 03, 3-byte OUI, 2-byte protocol.
        if body[0] != 0xaa || body[1] != 0xaa || body[2] != 0x03 {
            return None;
        }
        let proto = read16(body, 6);
        let apple = body[3] == 0x08 && body[4] == 0x00 && body[5] == 0x07;
        let zero = body[3] == 0 && body[4] == 0 && body[5] == 0;
        proof {
            let oui = body@.subrange(3, 6);
            assert(oui[0] == body@[3] && oui[1] == body@[4] && oui[2] == body@[5]);
            if apple {
                assert(oui =~= apple_oui());
            }
            if zero {
                assert(oui =~= seq![0u8, 0, 0]);
            }
        }
        if (proto == DDP && !apple) || (proto == AARP && !zero) {
            return None;
        }
        let rest = slice_subrange(body, 8, typelen as usize);
        Some(Frame { dst, src, proto, snap: true, payload: slice_to_vec(rest) })
    }

    pub fn to_string(&self) -> (r: String)
        ensures
            r@ == self.deep_view().text(),
    {
        let mut s = String::new();
        self.src.write(&mut s);
        fmt::push_text(&mut s, " > ");
        self.dst.write(&mut s);
        fmt::push_text(&mut s, "  ");
        fmt::push_text(
            &mut s,
            match self.proto {
                DDP => "DDP",
                AARP => "AARP",
                _ => "?",
            },
        );
        fmt::push_text(&mut s, " (0x");
        fmt::push_hex(&mut s, self.proto as u64, 4);
        fmt::push_text(&mut s, ")  phase ");
        // SNAP presence stands in for phase detection.
        fmt::push_text(
            &mut s,
            if self.snap {
                "2"
            } else {
                "1"
            },
        );
        fmt::push_text(&mut s, "  ");
        fmt::push_dec(&mut s, self.payload.len() as u64);
        fmt::push_text(&mut s, " bytes");
        assert(s@ =~= self.deep_view().text());
        s
    }
}

impl Frame {
    /// Appends the SNAP header.
    fn put_snap(&self, out: &mut Vec<u8>)
        ensures
            final(out)@ == old(out)@ + self.deep_view().snap_header(),
    {
        out.push(0xaa);
        out.push(0xaa);
        out.push(0x03);
        if self.proto == AARP {
            out.push(0);
            out.push(0);
            out.push(0);
        } else {
            out.push(0x08);
            out.push(0x00);
            out.push(0x07);
        }
        push16(out, self.proto);
        assert(out@ =~= old(out)@ + self.deep_view().snap_header());
    }

    /// Addresses, type or length with its SNAP header, and payload.
    fn unpadded(&self) -> (v: Vec<u8>)
        ensures
            v@ == self.deep_view().unpadded(),
    {
        let mut v: Vec<u8> = Vec::new();
        push_mac(&mut v, self.dst);
        push_mac(&mut v, self.src);
        if self.snap {
            let n: u32 = (8 + (self.payload.len() % 0x10000) as u32) % 0x10000;
            push16(&mut v, n as u16);
            self.put_snap(&mut v);
        } else {
            push16(&mut v, self.proto);
        }
        push_bytes(&mut v, self.payload.as_slice());
        assert(v@ =~= self.deep_view().unpadded());
        v
    }
}

impl Encode for Frame {
    open spec fn encoding(&self) -> Seq<u8> {
        self.deep_view().bytes()
    }

    fn encode(&self, out: &mut Vec<u8>) {
        let mut v = self.unpadded();
        pad(&mut v);
        push_bytes(out, v.as_slice());
    }
}

/// Fills a frame up with zeros to the Ethernet minimum.
fn pad(v: &mut Vec<u8>)
    ensures
        final(v)@ == padded(old(v)@),
{
    let ghost b = v@;
    assert(v@ =~= b + Seq::new(0, |i: int| 0u8));
    while v.len() < MIN_FRAME
        invariant
            v@.len() >= b.len(),
            b.len() < MIN_FRAME ==> v@.len() <= MIN_FRAME,
            b.len() >= MIN_FRAME ==> v@ == b,
            v@ == b + Seq::new((v@.len() - b.len()) as nat, |i: int| 0u8),
        decreases MIN_FRAME - v@.len(),
    {
        v.push(0);
        assert(v@ =~= b + Seq::new((v@.len() - b.len()) as nat, |i: int| 0u8));
    }
    assert(v@ =~= padded(b));
}

/// Law: a Phase 2 frame reads back as itself, its padding trimmed off.
pub proof fn law_snap_round_trip(f: FrameView)
    requires
        f.snap,
        8 + f.payload.len() <= MAX_LENGTH,
    ensures
        FrameView::parse(f.bytes()) == Some(f),
{
    broadcast use crate::wire::lemma_be16;

    let p = f.bytes();
    let n = 8 + f.payload.len();
    assert(n % 0x10000 == n);
    assert(p.subrange(0, 6) =~= f.dst.bytes());
    assert(p.subrange(6, 12) =~= f.src.bytes());
    assert(p[12] == wire::be16(n as u16)[0] && p[13] == wire::be16(n as u16)[1]);
    let body = p.skip(14);
    assert(body.subrange(8, n as int) =~= f.payload);
    assert(body.subrange(3, 6) =~= f.snap_header().subrange(3, 6));
    assert(f.snap_header().subrange(3, 6) =~= if f.proto == AARP {
        seq![0u8, 0, 0]
    } else {
        apple_oui()
    });
    assert(body[6] == wire::be16(f.proto)[0] && body[7] == wire::be16(f.proto)[1]);
}

/// Law: a Phase 1 frame has no length field, so its payload comes back with
/// whatever padding the shortest frame needed.
pub proof fn law_plain_round_trip(f: FrameView)
    requires
        !f.snap,
        f.proto > MAX_LENGTH,
    ensures
        FrameView::parse(f.bytes()) == Some(FrameView { payload: padded_payload(f.payload), ..f }),
{
    broadcast use crate::wire::lemma_be16;

    let p = f.bytes();
    assert(p.subrange(0, 6) =~= f.dst.bytes());
    assert(p.subrange(6, 12) =~= f.src.bytes());
    assert(p[12] == wire::be16(f.proto)[0] && p[13] == wire::be16(f.proto)[1]);
    assert(p.skip(14) =~= padded_payload(f.payload));
}

/// A payload filled up so that its frame reaches the Ethernet minimum.
pub open spec fn padded_payload(b: Seq<u8>) -> Seq<u8> {
    if b.len() < MIN_FRAME - 14 {
        b + Seq::new((MIN_FRAME - 14 - b.len()) as nat, |i: int| 0u8)
    } else {
        b
    }
}

// ------------------------------------------------------------- decode tree

/// One captured frame, decoded as far down the stack as its bytes could be
/// followed. Owned throughout, so it can be sent to a frontend.
#[derive(Debug, PartialEq, Eq)]
pub struct Packet {
    pub frame: Frame,
    pub body: Body,
}

#[derive(Debug, PartialEq, Eq)]
pub enum Body {
    Aarp(Aarp),
    Ddp(Ddp, DdpBody),
    /// A header we could not follow. The bytes are in `Frame::payload`.
    Unknown,
}

#[derive(Debug, PartialEq, Eq)]
pub enum DdpBody {
    Atp(Atp),
    Aep(Aep),
    Nbp(Nbp),
    Zip(Zip),
    Rtmp(Rtmp),
    /// A DDP type we do not decode, or a body we could not follow. The bytes
    /// are in `Ddp::data`.
    Unknown,
}

/// What a captured frame says.
pub struct PacketView {
    pub frame: FrameView,
    pub body: BodyView,
}

pub enum BodyView {
    Aarp(Aarp),
    Ddp(DdpView, DdpBodyView),
    Unknown,
}

pub enum DdpBodyView {
    Atp(AtpView),
    Aep(AepView),
    Nbp(NbpView),
    Zip(ZipView),
    Rtmp(RtmpView),
    Unknown,
}

impl DdpBodyView {
    /// What a datagram of type `typ` carries: a known type whose body cannot
    /// be followed is unknown, as is any other type.
    pub open spec fn of(typ: u8, data: Seq<u8>) -> DdpBodyView {
        if typ == DDP_NBP {
            match NbpView::parse(data) {
                Some(n) => DdpBodyView::Nbp(n),
                None => DdpBodyView::Unknown,
            }
        } else if typ == DDP_ATP {
            match AtpView::parse(data) {
                Some(a) => DdpBodyView::Atp(a),
                None => DdpBodyView::Unknown,
            }
        } else if typ == DDP_AEP {
            match AepView::parse(data) {
                Some(a) => DdpBodyView::Aep(a),
                None => DdpBodyView::Unknown,
            }
        } else if typ == DDP_ZIP {
            match ZipView::parse(data) {
                Some(z) => DdpBodyView::Zip(z),
                None => DdpBodyView::Unknown,
            }
        } else if typ == DDP_RTMP_DATA || typ == DDP_RTMP_REQ {
            match RtmpView::parse(typ, data) {
                Some(r) => DdpBodyView::Rtmp(r),
                None => DdpBodyView::Unknown,
            }
        } else {
            DdpBodyView::Unknown
        }
    }
}

impl PacketView {
    /// A frame whose protocol is neither AARP nor DDP is not AppleTalk; one
    /// whose header cannot be followed still is.
    pub open spec fn decode(b: Seq<u8>) -> Option<PacketView> {
        match FrameView::parse(b) {
            None => None,
            Some(frame) => if frame.proto == AARP {
                Some(
                    PacketView {
                        frame,
                        body: match Aarp::spec_parse(frame.payload) {
                            Some(a) => BodyView::Aarp(a),
                            None => BodyView::Unknown,
                        },
                    },
                )
            } else if frame.proto == DDP {
                Some(
                    PacketView {
                        frame,
                        body: match DdpView::parse(frame.payload) {
                            Some(d) => BodyView::Ddp(d, DdpBodyView::of(d.typ, d.data)),
                            None => BodyView::Unknown,
                        },
                    },
                )
            } else {
                None
            },
        }
    }
}

impl DeepView for DdpBody {
    type V = DdpBodyView;

    open spec fn deep_view(&self) -> DdpBodyView {
        match self {
            DdpBody::Atp(a) => DdpBodyView::Atp(a.deep_view()),
            DdpBody::Aep(a) => DdpBodyView::Aep(a.deep_view()),
            DdpBody::Nbp(n) => DdpBodyView::Nbp(n.deep_view()),
            DdpBody::Zip(z) => DdpBodyView::Zip(z.deep_view()),
            DdpBody::Rtmp(r) => DdpBodyView::Rtmp(r.deep_view()),
            DdpBody::Unknown => DdpBodyView::Unknown,
        }
    }
}

impl DeepView for Body {
    type V = BodyView;

    open spec fn deep_view(&self) -> BodyView {
        match self {
            Body::Aarp(a) => BodyView::Aarp(*a),
            Body::Ddp(d, b) => BodyView::Ddp(d.deep_view(), b.deep_view()),
            Body::Unknown => BodyView::Unknown,
        }
    }
}

impl DeepView for Packet {
    type V = PacketView;

    open spec fn deep_view(&self) -> PacketView {
        PacketView { frame: self.frame.deep_view(), body: self.body.deep_view() }
    }
}

/// Decodes what a datagram carries.
pub fn decode_body(d: &Ddp) -> (r: DdpBody)
    ensures
        r.deep_view() == DdpBodyView::of(d.typ, d.data@),
{
    let data = d.data.as_slice();
    match d.typ {
        DDP_NBP => match Nbp::parse(data) {
            Some(n) => DdpBody::Nbp(n),
            None => DdpBody::Unknown,
        },
        DDP_ATP => match Atp::parse(data) {
            Some(a) => DdpBody::Atp(a),
            None => DdpBody::Unknown,
        },
        DDP_AEP => match Aep::parse(data) {
            Some(a) => DdpBody::Aep(a),
            None => DdpBody::Unknown,
        },
        DDP_ZIP => match Zip::parse(data) {
            Some(z) => DdpBody::Zip(z),
            None => DdpBody::Unknown,
        },
        DDP_RTMP_DATA => match Rtmp::parse(DDP_RTMP_DATA, data) {
            Some(r) => DdpBody::Rtmp(r),
            None => DdpBody::Unknown,
        },
        DDP_RTMP_REQ => match Rtmp::parse(DDP_RTMP_REQ, data) {
            Some(r) => DdpBody::Rtmp(r),
            None => DdpBody::Unknown,
        },
        _ => DdpBody::Unknown,
    }
}

/// Decodes one Ethernet frame. Returns None for anything that is not
/// AppleTalk -- the capture side uses this to filter before queueing.
///
/// Note that a *recognised* protocol whose body fails to parse still yields a
/// Packet, with `Unknown` at the layer that stopped: the caller can fall back
/// to hexdumping the enclosing layer's bytes.
pub fn decode(bytes: &[u8]) -> (r: Option<Packet>)
    ensures
        r.deep_view() == PacketView::decode(bytes@),
{
    let frame = Frame::parse(bytes)?;
    let body = match frame.proto {
        AARP => match Aarp::parse(frame.payload.as_slice()) {
            Some(a) => Body::Aarp(a),
            None => Body::Unknown,
        },
        DDP => match Ddp::parse(frame.payload.as_slice()) {
            Some(d) => {
                let inner = decode_body(&d);
                Body::Ddp(d, inner)
            },
            None => Body::Unknown,
        },
        _ => return None,
    };
    Some(Packet { frame, body })
}

} // verus!
