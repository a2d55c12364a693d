//! Datagram Delivery Protocol -- the AppleTalk network layer.

use vstd::prelude::*;
use vstd::slice::*;

use crate::fmt;
use crate::wire;
use crate::wire::{push16, push_bytes, read16, tail_of, Addr, Encode, DDP_AEP, DDP_ATP, DDP_NBP, DDP_RTMP_DATA, DDP_RTMP_REQ, DDP_ZIP};

verus! {

/// One step of the checksum: add the byte, then rotate left by one bit.
pub open spec fn sum_step(sum: u16, b: u8) -> u16 {
    let s = (sum + b) % 0x10000;
    ((s * 2) % 0x10000 + s / 0x8000) as u16
}

/// The running total after all of `b`.
pub open spec fn sum_of(b: Seq<u8>) -> u16
    decreases b.len(),
{
    if b.len() == 0 {
        0
    } else {
        sum_step(sum_of(b.drop_last()), b.last())
    }
}

/// The checksum of `b`: the running total, with $FFFF in place of zero.
pub open spec fn checksum_of(b: Seq<u8>) -> u16 {
    if sum_of(b) == 0 {
        0xffff
    } else {
        sum_of(b)
    }
}

/// The DDP checksum: add each byte, rotate the
/// running total left one bit, and substitute $FFFF for a zero result because
/// a zero checksum on the wire means "not computed".
pub fn checksum(bytes: &[u8]) -> (r: u16)
    ensures
        r == checksum_of(bytes@),
        r != 0,
{
    let mut sum: u16 = 0;
    let mut i: usize = 0;
    while i < bytes.len()
        invariant
            i <= bytes@.len(),
            sum == sum_of(bytes@.take(i as int)),
        decreases bytes@.len() - i,
    {
        let s: u32 = (sum as u32 + bytes[i] as u32) % 0x10000;
        sum = ((s * 2) % 0x10000 + s / 0x8000) as u16;
        assert(bytes@.take(i + 1).drop_last() =~= bytes@.take(i as int));
        i = i + 1;
    }
    assert(bytes@.take(i as int) =~= bytes@);
    if sum == 0 {
        0xffff
    } else {
        sum
    }
}

/// A DDP datagram with the 13-byte extended (long) header -- the only form
/// EtherTalk carries. The 5-byte short header is LocalTalk-only, where LLAP's
/// type field tells the two apart.
#[derive(Debug, PartialEq, Eq)]
pub struct Ddp {
    pub hops: u8,
    /// Header + data, per the wire. Compare against `data` to spot truncation.
    pub length: u16,
    /// 0 means the sender computed no checksum.
    pub checksum: u16,
    pub dst: Addr,
    pub dst_socket: u8,
    pub src: Addr,
    pub src_socket: u8,
    pub typ: u8,
    pub data: Vec<u8>,
}

/// What a datagram says, with its data as a sequence of bytes.
pub struct DdpView {
    pub hops: u8,
    pub length: u16,
    pub checksum: u16,
    pub dst: Addr,
    pub dst_socket: u8,
    pub src: Addr,
    pub src_socket: u8,
    pub typ: u8,
    pub data: Seq<u8>,
}

/// The name of a DDP protocol type.
pub open spec fn kind_name_of(typ: u8) -> Seq<char> {
    if typ == DDP_RTMP_DATA {
        "RTMP-data"@
    } else if typ == DDP_NBP {
        "NBP"@
    } else if typ == DDP_ATP {
        "ATP"@
    } else if typ == DDP_AEP {
        "AEP"@
    } else if typ == DDP_RTMP_REQ {
        "RTMP-req"@
    } else if typ == DDP_ZIP {
        "ZIP"@
    } else if typ == 7 {
        "ADSP"@
    } else {
        "?"@
    }
}

impl DdpView {
    /// Reading the extended header: two reserved bits, four bits of hop count
    /// and ten of length, then the checksum, the addresses, the sockets and
    /// the type; whatever follows is data.
    pub open spec fn parse(p: Seq<u8>) -> Option<DdpView> {
        if p.len() < 13 {
            None
        } else {
            Some(
                DdpView {
                    hops: (p[0] / 4) % 16,
                    length: wire::u16_of(p[0] % 4, p[1]),
                    checksum: wire::u16_at(p, 2),
                    dst: Addr { net: wire::u16_at(p, 4), node: p[8] },
                    dst_socket: p[10],
                    src: Addr { net: wire::u16_at(p, 6), node: p[9] },
                    src_socket: p[11],
                    typ: p[12],
                    data: p.skip(13),
                },
            )
        }
    }

    /// The first two bytes of either header form: hop count above a ten-bit
    /// length of `header` bytes and the data.
    pub open spec fn head(hops: u8, total: nat) -> Seq<u8> {
        seq![((hops % 16) * 4 + (total / 256) % 4) as u8, (total % 256) as u8]
    }

    /// The addresses, sockets, type and data: what the checksum covers.
    pub open spec fn summed(self) -> Seq<u8> {
        wire::be16(self.dst.net) + wire::be16(self.src.net) + seq![
            self.dst.node,
            self.src.node,
            self.dst_socket,
            self.src_socket,
            self.typ,
        ] + self.data
    }

    /// The datagram with its extended header.
    pub open spec fn bytes(self) -> Seq<u8> {
        Self::head(self.hops, 13 + self.data.len()) + wire::be16(self.checksum) + self.summed()
    }

    /// The datagram with its short header.
    pub open spec fn short_bytes(self) -> Seq<u8> {
        Self::head(0, 5 + self.data.len()) + seq![self.dst_socket, self.src_socket, self.typ]
            + self.data
    }

    /// Reading the short header, which leaves the network and the nodes to
    /// the link: the link's own network stands for both ends.
    pub open spec fn from_short(p: Seq<u8>, net: u16, dst: u8, src: u8) -> Option<DdpView> {
        if p.len() < 5 {
            None
        } else {
            Some(
                DdpView {
                    hops: 0,
                    length: ((13 + (p.len() - 5)) % 0x10000) as u16,
                    checksum: 0,
                    dst: Addr { net, node: dst },
                    dst_socket: p[2],
                    src: Addr { net, node: src },
                    src_socket: p[3],
                    typ: p[4],
                    data: p.skip(5),
                },
            )
        }
    }

    /// A datagram whose header fields fit the wire: four bits of hop count,
    /// and a ten-bit length that counts the header and the data.
    pub open spec fn valid(self) -> bool {
        &&& self.hops < 16
        &&& self.length == 13 + self.data.len()
        &&& self.length < 1024
    }

    /// The printed form: a length that disagrees with what arrived is shown
    /// beside it.
    pub open spec fn text(self) -> Seq<char> {
        self.src.text() + ":"@ + fmt::dec(self.src_socket as nat) + " > "@ + self.dst.text() + ":"@
            + fmt::dec(self.dst_socket as nat) + "  type "@ + fmt::dec(self.typ as nat) + " ("@
            + kind_name_of(self.typ) + ") hops "@ + fmt::dec(self.hops as nat) + " len "@
            + fmt::dec(self.length as nat) + (if self.length != 13 + self.data.len() {
            " (wire "@ + fmt::dec(13 + self.data.len()) + ")"@
        } else {
            Seq::empty()
        }) + (if self.checksum == 0 {
            " cksum none"@
        } else {
            " cksum 0x"@ + fmt::hex(self.checksum as nat, 4)
        })
    }
}

impl DeepView for Ddp {
    type V = DdpView;

    open spec fn deep_view(&self) -> DdpView {
        DdpView {
            hops: self.hops,
            length: self.length,
            checksum: self.checksum,
            dst: self.dst,
            dst_socket: self.dst_socket,
            src: self.src,
            src_socket: self.src_socket,
            typ: self.typ,
            data: self.data@,
        }
    }
}

impl Clone for Ddp {
    fn clone(&self) -> (r: Ddp)
        ensures
            r.deep_view() == self.deep_view(),
    {
        Ddp {
            hops: self.hops,
            length: self.length,
            checksum: self.checksum,
            dst: self.dst,
            dst_socket: self.dst_socket,
            src: self.src,
            src_socket: self.src_socket,
            typ: self.typ,
            data: slice_to_vec(self.data.as_slice()),
        }
    }
}

/// Appends hop count and length.
fn push_head(out: &mut Vec<u8>, hops: u8, header: usize, len: usize)
    requires
        header <= 13,
    ensures
        final(out)@ == old(out)@ + DdpView::head(hops, (header + len) as nat),
{
    let total: usize = header + len % 0x400;
    proof {
        let t = header + len;
        assert(t % 256 == total % 256);
        assert((t / 256) % 4 == ((total / 256) % 4)) by {
            assert(len == 0x400 * (len / 0x400) + len % 0x400);
            assert(t == 0x400 * (len / 0x400) + total);
            assert(t / 256 == 4 * (len / 0x400) + total / 256);
        }
    }
    out.push((hops % 16) * 4 + ((total / 256) % 4) as u8);
    out.push((total % 256) as u8);
    assert(out@ =~= old(out)@ + DdpView::head(hops, (header + len) as nat));
}

impl Ddp {
    pub fn parse(p: &[u8]) -> (r: Option<Ddp>)
        ensures
            r.deep_view() == DdpView::parse(p@),
    {
        if p.len() < 13 {
            return None;
        }
        Some(
            Ddp {
                hops: (p[0] / 4) % 16,
                length: wire::join16(p[0] % 4, p[1]),
                checksum: read16(p, 2),
                dst: Addr { net: read16(p, 4), node: p[8] },
                dst_socket: p[10],
                src: Addr { net: read16(p, 6), node: p[9] },
                src_socket: p[11],
                typ: p[12],
                data: tail_of(p, 13),
            },
        )
    }

    /// Lifts a short-header datagram onto the network `net`: the link said
    /// which nodes it runs between, and the short header says the rest.
    pub fn from_short(p: &[u8], net: u16, dst: u8, src: u8) -> (r: Option<Ddp>)
        ensures
            r.deep_view() == DdpView::from_short(p@, net, dst, src),
    {
        if p.len() < 5 {
            return None;
        }
        let data = tail_of(p, 5);
        let n: usize = (p.len() - 5) % 0x10000;
        Some(
            Ddp {
                hops: 0,
                length: ((13 + n as u32) % 0x10000) as u16,
                checksum: 0,
                dst: Addr { net, node: dst },
                dst_socket: p[2],
                src: Addr { net, node: src },
                src_socket: p[3],
                typ: p[4],
                data,
            },
        )
    }

    /// The datagram behind the 5-byte short header, which omits the network
    /// numbers and what the link header says.
    pub fn to_short_bytes(&self) -> (r: Vec<u8>)
        ensures
            r@ == self.deep_view().short_bytes(),
    {
        let mut out: Vec<u8> = Vec::new();
        push_head(&mut out, 0, 5, self.data.len());
        out.push(self.dst_socket);
        out.push(self.src_socket);
        out.push(self.typ);
        push_bytes(&mut out, self.data.as_slice());
        assert(out@ =~= self.deep_view().short_bytes());
        out
    }

    pub fn kind_name(&self) -> (r: &'static str)
        ensures
            r@ == kind_name_of(self.typ),
    {
        match self.typ {
            DDP_RTMP_DATA => "RTMP-data",
            DDP_NBP => "NBP",
            DDP_ATP => "ATP",
            DDP_AEP => "AEP",
            DDP_RTMP_REQ => "RTMP-req",
            DDP_ZIP => "ZIP",
            7 => "ADSP",
            _ => "?",
        }
    }

    /// Checksum over everything following the checksum field -- destination
    /// network through the last data byte.
    pub fn compute_checksum(&self) -> (r: u16)
        ensures
            r == checksum_of(self.deep_view().summed()),
            r != 0,
    {
        let b = self.to_bytes();
        let s = slice_subrange(b.as_slice(), 4, b.len());
        assert(s@ =~= self.deep_view().summed());
        checksum(s)
    }

    pub fn to_string(&self) -> (r: String)
        ensures
            r@ == self.deep_view().text(),
    {
        let mut s = String::new();
        self.src.write(&mut s);
        fmt::push_text(&mut s, ":");
        fmt::push_dec(&mut s, self.src_socket as u64);
        fmt::push_text(&mut s, " > ");
        self.dst.write(&mut s);
        fmt::push_text(&mut s, ":");
        fmt::push_dec(&mut s, self.dst_socket as u64);
        fmt::push_text(&mut s, "  type ");
        fmt::push_dec(&mut s, self.typ as u64);
        fmt::push_text(&mut s, " (");
        fmt::push_text(&mut s, self.kind_name());
        fmt::push_text(&mut s, ") hops ");
        fmt::push_dec(&mut s, self.hops as u64);
        fmt::push_text(&mut s, " len ");
        fmt::push_dec(&mut s, self.length as u64);
        // The length field covers the header, so it should match what arrived.
        if self.length < 13 || (self.length - 13) as usize != self.data.len() {
            fmt::push_text(&mut s, " (wire ");
            fmt::push_sum(&mut s, 13, self.data.len());
            fmt::push_text(&mut s, ")");
        }
        if self.checksum == 0 {
            fmt::push_text(&mut s, " cksum none");
        } else {
            fmt::push_text(&mut s, " cksum 0x");
            fmt::push_hex(&mut s, self.checksum as u64, 4);
        }
        assert(s@ =~= self.deep_view().text());
        s
    }
}

impl Encode for Ddp {
    open spec fn encoding(&self) -> Seq<u8> {
        self.deep_view().bytes()
    }

    fn encode(&self, out: &mut Vec<u8>) {
        push_head(out, self.hops, 13, self.data.len());
        push16(out, self.checksum);
        push16(out, self.dst.net);
        push16(out, self.src.net);
        out.push(self.dst.node);
        out.push(self.src.node);
        out.push(self.dst_socket);
        out.push(self.src_socket);
        out.push(self.typ);
        push_bytes(out, self.data.as_slice());
        assert(out@ =~= old(out)@ + self.encoding());
    }
}

/// Law: a datagram whose header fits the wire reads back as itself.
pub proof fn law_round_trip(d: DdpView)
    requires
        d.valid(),
    ensures
        DdpView::parse(d.bytes()) == Some(d),
{
    broadcast use crate::wire::lemma_be16;

    let p = d.bytes();
    assert(p.skip(13) =~= d.data);
    assert(p[0] == d.hops * 4 + (d.length / 256) % 4);
    assert(d.length / 256 < 4);
    assert((p[0] / 4) % 16 == d.hops);
    assert(p[0] % 4 == d.length / 256);
}

/// Law: whatever a datagram claims of itself, what is sent counts the header
/// and the data: a length field that disagreed is not transmitted.
pub proof fn law_length_is_recomputed(d: DdpView)
    requires
        13 + d.data.len() < 1024,
    ensures
        DdpView::parse(d.bytes()) is Some,
        DdpView::parse(d.bytes())->0.length == 13 + d.data.len(),
        DdpView::parse(d.bytes())->0.data == d.data,
{
    let v = DdpView { hops: d.hops % 16, length: (13 + d.data.len()) as u16, ..d };
    assert(v.bytes() =~= d.bytes());
    law_round_trip(v);
}

/// Law: lifting a datagram off a short header gives back its ends, sockets,
/// type and data, on the link's network, with the length the extended header
/// would carry.
pub proof fn law_short_header_lifts(d: DdpView)
    requires
        d.src.net == d.dst.net,
        13 + d.data.len() < 0x10000,
    ensures
        DdpView::from_short(d.short_bytes(), d.dst.net, d.dst.node, d.src.node) == Some(
            DdpView { hops: 0, checksum: 0, length: (13 + d.data.len()) as u16, ..d },
        ),
{
    assert(d.short_bytes().skip(5) =~= d.data);
}

} // verus!
