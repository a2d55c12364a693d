//! LocalTalk Link Access Protocol -- LocalTalk's link layer, and the payload
//! LToUDP carries.
//!
//! A 3-byte header and a data field. Node IDs are 8 bits: 0 is
//! not allowed, 1-127 are user nodes, 128-254 server nodes, and 255 is the
//! broadcast ID.

use vstd::prelude::*;
use vstd::slice::*;

use crate::fmt;
use crate::wire;
use crate::wire::{push_bytes, tail_of, Encode};

verus! {

pub const LLAP_SHORT_DDP: u8 = 0x01;

pub const LLAP_LONG_DDP: u8 = 0x02;

pub const LLAP_ENQ: u8 = 0x81;

pub const LLAP_ACK: u8 = 0x82;

pub const LLAP_RTS: u8 = 0x84;

pub const LLAP_CTS: u8 = 0x85;

/// The largest LLAP data field. The header is not counted.
pub const MAX_DATA: usize = 600;

/// An LLAP packet: the 3-byte header and its data field.
///
/// No frame check sequence: a real LocalTalk frame ends with a CRC-CCITT over
/// the header and data, but LToUDP strips it before transmission and never
/// expects one back, and the serial link adds its own.
#[derive(Debug, PartialEq, Eq)]
pub struct Llap {
    pub dst: u8,
    pub src: u8,
    pub typ: u8,
    /// Empty for control packets, which have no data field at all.
    pub data: Vec<u8>,
}

/// What an LLAP packet says.
pub struct LlapView {
    pub dst: u8,
    pub src: u8,
    pub typ: u8,
    pub data: Seq<u8>,
}

/// The four control types there are.
pub open spec fn control_type(typ: u8) -> bool {
    typ == LLAP_ENQ || typ == LLAP_ACK || typ == LLAP_RTS || typ == LLAP_CTS
}

pub open spec fn kind_name_of(typ: u8) -> Seq<char> {
    if typ == LLAP_SHORT_DDP {
        "short-DDP"@
    } else if typ == LLAP_LONG_DDP {
        "long-DDP"@
    } else if typ == LLAP_ENQ {
        "lapENQ"@
    } else if typ == LLAP_ACK {
        "lapACK"@
    } else if typ == LLAP_RTS {
        "lapRTS"@
    } else if typ == LLAP_CTS {
        "lapCTS"@
    } else {
        "?"@
    }
}

impl LlapView {
    /// A packet that may stand on the link: a control packet has one of the
    /// four control types and no data; a data packet has a type from $01 to
    /// $7F and a data field of 2 to 600 bytes whose first ten-bit number is
    /// its own length. $00 is invalid, and every other type must be
    /// discarded.
    pub open spec fn valid(self) -> bool {
        if control_type(self.typ) {
            self.data.len() == 0
        } else {
            &&& 0 < self.typ < 0x80
            &&& 2 <= self.data.len() <= MAX_DATA
            &&& wire::u16_of(self.data[0] % 4, self.data[1]) == self.data.len()
        }
    }

    /// The packet whose bytes are `p`, valid or not.
    pub open spec fn of(p: Seq<u8>) -> LlapView {
        LlapView { dst: p[0], src: p[1], typ: p[2], data: p.skip(3) }
    }

    pub open spec fn parse(p: Seq<u8>) -> Option<LlapView> {
        if p.len() >= 3 && Self::of(p).valid() {
            Some(Self::of(p))
        } else {
            None
        }
    }

    pub open spec fn bytes(self) -> Seq<u8> {
        seq![self.dst, self.src, self.typ] + self.data
    }

    pub open spec fn text(self) -> Seq<char> {
        fmt::dec(self.src as nat) + " > "@ + fmt::dec(self.dst as nat) + "  "@ + kind_name_of(
            self.typ,
        ) + " ($"@ + fmt::hex_upper(self.typ) + ")"@ + (if self.data.len() > 0 {
            "  "@ + fmt::dec(self.data.len()) + " bytes"@
        } else {
            Seq::empty()
        })
    }
}

impl DeepView for Llap {
    type V = LlapView;

    open spec fn deep_view(&self) -> LlapView {
        LlapView { dst: self.dst, src: self.src, typ: self.typ, data: self.data@ }
    }
}

impl Clone for Llap {
    fn clone(&self) -> (r: Llap)
        ensures
            r.deep_view() == self.deep_view(),
    {
        Llap {
            dst: self.dst,
            src: self.src,
            typ: self.typ,
            data: slice_to_vec(self.data.as_slice()),
        }
    }
}

impl Llap {
    pub fn parse(p: &[u8]) -> (r: Option<Llap>)
        ensures
            r.deep_view() == LlapView::parse(p@),
    {
        if p.len() < 3 {
            return None;
        }
        let typ = p[2];
        let n: usize = p.len() - 3;
        assert(LlapView::of(p@).data.len() == n);
        if typ == LLAP_ENQ || typ == LLAP_ACK || typ == LLAP_RTS || typ == LLAP_CTS {
            // Control packets carry no data field.
            if n != 0 {
                return None;
            }
        } else if typ == 0 || typ >= 0x80 {
            // $00 is invalid, and every other $80-$FF value "must be
            // discarded". Types $03-$7F are other LLAP clients: we
            // parse them, and it is the caller's business whether it has any
            // use for one.
            return None;
        } else {
            if n > MAX_DATA || n < 2 {
                return None;
            }
            // The low 10 bits of the data field's first 2 bytes hold its own
            // length, that length field included. The high 6 bits belong to
            // the higher-level protocol.
            if wire::join16(p[3] % 4, p[4]) as usize != n {
                return None;
            }
        }
        Some(Llap { dst: p[0], src: p[1], typ, data: tail_of(p, 3) })
    }

    /// A control packet. ENQ and ACK both carry the ID under discussion in
    /// *both* node bytes -- `(id, id, $81)` and `(id, id, $82)`.
    pub fn control(dst: u8, src: u8, typ: u8) -> (r: Llap)
        ensures
            r.deep_view() == (LlapView { dst, src, typ, data: Seq::empty() }),
    {
        Llap { dst, src, typ, data: Vec::new() }
    }

    pub fn kind_name(&self) -> (r: &'static str)
        ensures
            r@ == kind_name_of(self.typ),
    {
        match self.typ {
            LLAP_SHORT_DDP => "short-DDP",
            LLAP_LONG_DDP => "long-DDP",
            LLAP_ENQ => "lapENQ",
            LLAP_ACK => "lapACK",
            LLAP_RTS => "lapRTS",
            LLAP_CTS => "lapCTS",
            _ => "?",
        }
    }

    pub fn to_string(&self) -> (r: String)
        ensures
            r@ == self.deep_view().text(),
    {
        let mut s = String::new();
        fmt::push_dec(&mut s, self.src as u64);
        fmt::push_text(&mut s, " > ");
        fmt::push_dec(&mut s, self.dst as u64);
        fmt::push_text(&mut s, "  ");
        fmt::push_text(&mut s, self.kind_name());
        fmt::push_text(&mut s, " ($");
        fmt::push_hex_upper(&mut s, self.typ);
        fmt::push_text(&mut s, ")");
        if self.data.len() > 0 {
            fmt::push_text(&mut s, "  ");
            fmt::push_dec(&mut s, self.data.len() as u64);
            fmt::push_text(&mut s, " bytes");
        }
        assert(s@ =~= self.deep_view().text());
        s
    }
}

impl Encode for Llap {
    open spec fn encoding(&self) -> Seq<u8> {
        self.deep_view().bytes()
    }

    fn encode(&self, out: &mut Vec<u8>) {
        out.push(self.dst);
        out.push(self.src);
        out.push(self.typ);
        push_bytes(out, self.data.as_slice());
        assert(out@ =~= old(out)@ + self.encoding());
    }
}

/// Law: every packet that may stand on the link reads back as itself, and no
/// other does.
pub proof fn law_round_trip(l: LlapView)
    ensures
        LlapView::parse(l.bytes()) == (if l.valid() {
            Some(l)
        } else {
            None
        }),
{
    assert(l.bytes().skip(3) =~= l.data);
    assert(LlapView::of(l.bytes()) == l);
}

/// Law: what a packet was read from is what it is sent as.
pub proof fn law_reads_and_writes_agree(p: Seq<u8>)
    requires
        LlapView::parse(p) is Some,
    ensures
        LlapView::parse(p)->0.bytes() == p,
{
    assert(LlapView::parse(p)->0.bytes() =~= p);
}

} // verus!
