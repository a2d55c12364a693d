//! AppleTalk Address Resolution Protocol -- ARP's layout with AppleTalk
//! addresses.

use vstd::prelude::*;
use vstd::slice::*;

use crate::fmt;
use crate::wire;
use crate::wire::{push16, push_mac, read16, Addr, Encode, MacAddr};

verus! {

/// An AARP packet: ARP's layout with AppleTalk addresses. Ethernet AARP is
/// always 28 bytes and carries no payload.
#[derive(Debug, Clone, Copy, PartialEq, Eq, Structural)]
pub struct Aarp {
    pub op: u16,
    pub src_hw: MacAddr,
    pub src: Addr,
    pub dst_hw: MacAddr,
    pub dst: Addr,
}

/// Hardware type 1 (Ethernet), protocol 0x809b, 6-byte MAC, 4-byte AppleTalk
/// address -- the only combination there is.
pub open spec fn prefix() -> Seq<u8> {
    seq![0x00, 0x01, 0x80, 0x9b, 6, 4]
}

/// A protocol address is a zero pad byte, a 16-bit net, then the node.
pub open spec fn addr_bytes(a: Addr) -> Seq<u8> {
    seq![0u8] + wire::be16(a.net) + seq![a.node]
}

pub open spec fn op_name_of(op: u16) -> Seq<char> {
    if op == 1 {
        "request"@
    } else if op == 2 {
        "response"@
    } else if op == 3 {
        "probe"@
    } else {
        "?"@
    }
}

impl Aarp {
    pub open spec fn spec_parse(p: Seq<u8>) -> Option<Aarp> {
        if p.len() < 28 || p.take(6) != prefix() {
            None
        } else {
            Some(
                Aarp {
                    op: wire::u16_at(p, 6),
                    src_hw: MacAddr::of(p.subrange(8, 14)),
                    src: Addr { net: wire::u16_at(p, 15), node: p[17] },
                    dst_hw: MacAddr::of(p.subrange(18, 24)),
                    dst: Addr { net: wire::u16_at(p, 25), node: p[27] },
                },
            )
        }
    }

    pub open spec fn bytes(self) -> Seq<u8> {
        prefix() + wire::be16(self.op) + self.src_hw.bytes() + addr_bytes(self.src)
            + self.dst_hw.bytes() + addr_bytes(self.dst)
    }

    pub open spec fn text(self) -> Seq<char> {
        op_name_of(self.op) + "  "@ + self.src.text() + " ("@ + self.src_hw.text() + ") > "@
            + self.dst.text() + " ("@ + self.dst_hw.text() + ")"@
    }

    pub fn parse(p: &[u8]) -> (r: Option<Aarp>)
        ensures
            r == Self::spec_parse(p@),
    {
        if p.len() < 28 {
            return None;
        }
        // Anything but Ethernet carrying AppleTalk is not ours to decode.
        if p[0] != 0x00 || p[1] != 0x01 || p[2] != 0x80 || p[3] != 0x9b || p[4] != 6 || p[5] != 4 {
            proof {
                let t = p@.take(6);
                assert(t[0] == p@[0] && t[1] == p@[1] && t[2] == p@[2] && t[3] == p@[3] && t[4]
                    == p@[4] && t[5] == p@[5]);
            }
            return None;
        }
        assert(p@.take(6) =~= prefix());
        Some(
            Aarp {
                op: read16(p, 6),
                src_hw: MacAddr(p[8], p[9], p[10], p[11], p[12], p[13]),
                src: Addr { net: read16(p, 15), node: p[17] },
                dst_hw: MacAddr(p[18], p[19], p[20], p[21], p[22], p[23]),
                dst: Addr { net: read16(p, 25), node: p[27] },
            },
        )
    }

    pub fn op_name(&self) -> (r: &'static str)
        ensures
            r@ == op_name_of(self.op),
    {
        match self.op {
            1 => "request",
            2 => "response",
            3 => "probe",
            _ => "?",
        }
    }

    pub fn to_string(&self) -> (r: String)
        ensures
            r@ == self.text(),
    {
        let mut s = fmt::text(self.op_name());
        fmt::push_text(&mut s, "  ");
        self.src.write(&mut s);
        fmt::push_text(&mut s, " (");
        self.src_hw.write(&mut s);
        fmt::push_text(&mut s, ") > ");
        self.dst.write(&mut s);
        fmt::push_text(&mut s, " (");
        self.dst_hw.write(&mut s);
        fmt::push_text(&mut s, ")");
        s
    }
}

/// Appends a padded protocol address.
fn push_addr(out: &mut Vec<u8>, a: Addr)
    ensures
        final(out)@ == old(out)@ + addr_bytes(a),
{
    out.push(0);
    push16(out, a.net);
    out.push(a.node);
    assert(out@ =~= old(out)@ + addr_bytes(a));
}

impl Encode for Aarp {
    open spec fn encoding(&self) -> Seq<u8> {
        self.bytes()
    }

    fn encode(&self, out: &mut Vec<u8>) {
        out.push(0x00);
        out.push(0x01);
        out.push(0x80);
        out.push(0x9b);
        out.push(6);
        out.push(4);
        push16(out, self.op);
        push_mac(out, self.src_hw);
        push_addr(out, self.src);
        push_mac(out, self.dst_hw);
        push_addr(out, self.dst);
        assert(out@ =~= old(out)@ + self.encoding());
    }
}

/// Law: an AARP packet reads back as itself, whatever padding follows it.
pub proof fn law_round_trip(a: Aarp, padding: Seq<u8>)
    ensures
        Aarp::spec_parse(a.bytes() + padding) == Some(a),
{
    broadcast use crate::wire::lemma_be16;

    let p = a.bytes() + padding;
    assert(p.take(6) =~= prefix());
    assert(p.subrange(8, 14) =~= a.src_hw.bytes());
    assert(p.subrange(18, 24) =~= a.dst_hw.bytes());
}

} // verus!
