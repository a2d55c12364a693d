//! Parsers and encoders for the AppleTalk protocols, bottom up: ELAP, AARP,
//! DDP, then the protocols DDP carries. Every `parse` takes a byte slice and
//! returns None rather than decoding something it does not recognise.

use vstd::prelude::*;
use vstd::string::*;
use vstd::utf8::*;
use vstd::slice::*;

pub mod aarp;
pub mod aep;
pub mod atp;
pub mod aurp;
pub mod aurp_laws;
pub mod ddp;
pub mod frame;
pub mod layout_laws;
pub mod llap;
pub mod nbp;
pub mod rtmp;
pub mod zip;

pub use crate::addr::{Ipv4Addr, MacAddr};
use crate::fmt;

pub use aarp::Aarp;
pub use aep::{Aep, Echo};
pub use atp::{Atp, Func};
pub use aurp::{Aurp, Cmd, Di, DomainHeader, EventTuple};
pub use ddp::Ddp;
pub use frame::{decode, Body, DdpBody, Frame, Packet};
pub use llap::{Llap, LLAP_ACK, LLAP_CTS, LLAP_ENQ, LLAP_LONG_DDP, LLAP_RTS, LLAP_SHORT_DDP};
pub use nbp::{Nbp, NbpFunc, NbpTuple};
pub use rtmp::{NetworkTuple, Rtmp};
pub use zip::{zone_multicast, Zip, ZipAtp};

verus! {

/// Serialises a wire type. Derived fields -- lengths, counts, padding -- are
/// recomputed here rather than read from the struct, so a parsed packet whose
/// length field disagreed with its data cannot be re-transmitted that way.
pub trait Encode {
    /// The bytes this value travels as.
    spec fn encoding(&self) -> Seq<u8>;

    /// Appends to `out` so nested layers share one allocation.
    fn encode(&self, out: &mut Vec<u8>)
        ensures
            final(out)@ == old(out)@ + self.encoding(),
    ;

    fn to_bytes(&self) -> (v: Vec<u8>)
        ensures
            v@ == self.encoding(),
    {
        let mut v: Vec<u8> = Vec::new();
        self.encode(&mut v);
        v
    }
}

/// AppleTalk Datagram Delivery Protocol.
pub const DDP: u16 = 0x809b;

/// AppleTalk Address Resolution Protocol.
pub const AARP: u16 = 0x80f3;

// DDP protocol types.
pub const DDP_RTMP_DATA: u8 = 1;

pub const DDP_NBP: u8 = 2;

pub const DDP_ATP: u8 = 3;

pub const DDP_AEP: u8 = 4;

pub const DDP_RTMP_REQ: u8 = 5;

pub const DDP_ZIP: u8 = 6;

/// An AppleTalk network address: 16-bit network, 8-bit node.
#[derive(Debug, Clone, Copy, PartialEq, Eq, Structural)]
pub struct Addr {
    pub net: u16,
    pub node: u8,
}

impl Addr {
    /// Network and node with a dot between them.
    pub open spec fn text(self) -> Seq<char> {
        fmt::dec(self.net as nat) + "."@ + fmt::dec(self.node as nat)
    }

    pub fn to_string(&self) -> (r: String)
        ensures
            r@ == self.text(),
    {
        let mut s = String::new();
        self.write(&mut s);
        s
    }

    /// Appends the printed form.
    pub fn write(&self, out: &mut String)
        ensures
            final(out)@ == old(out)@ + self.text(),
    {
        fmt::push_dec(out, self.net as u64);
        fmt::push_text(out, ".");
        fmt::push_dec(out, self.node as u64);
    }
}

/// Reads an Ethernet address of exactly six bytes.
pub fn mac(b: &[u8]) -> (r: Option<MacAddr>)
    ensures
        r == (if b@.len() == 6 {
            Some(MacAddr::of(b@))
        } else {
            None
        }),
{
    if b.len() == 6 {
        Some(MacAddr(b[0], b[1], b[2], b[3], b[4], b[5]))
    } else {
        None
    }
}

/// Appends the six bytes of an Ethernet address.
pub fn push_mac(out: &mut Vec<u8>, m: MacAddr)
    ensures
        final(out)@ == old(out)@ + m.bytes(),
{
    out.push(m.0);
    out.push(m.1);
    out.push(m.2);
    out.push(m.3);
    out.push(m.4);
    out.push(m.5);
}

/// A copy of the bytes from `from` on.
pub fn tail_of(p: &[u8], from: usize) -> (r: Vec<u8>)
    requires
        from <= p@.len(),
    ensures
        r@ == p@.skip(from as int),
{
    let t = slice_subrange(p, from, p.len());
    assert(t@ =~= p@.skip(from as int));
    slice_to_vec(t)
}

// ------------------------------------------------------------------- numbers

/// A 16-bit number, most significant byte first.
pub open spec fn be16(n: u16) -> Seq<u8> {
    seq![(n / 256) as u8, (n % 256) as u8]
}

/// The 16-bit number whose bytes are `hi` and `lo`.
pub open spec fn u16_of(hi: u8, lo: u8) -> u16 {
    (hi * 256 + lo) as u16
}

/// The 16-bit number at offset `i`.
pub open spec fn u16_at(p: Seq<u8>, i: int) -> u16 {
    u16_of(p[i], p[i + 1])
}

/// The signed reading of a 16-bit number.
pub open spec fn signed(n: u16) -> i16 {
    if n < 0x8000 {
        n as i16
    } else {
        (n - 0x10000) as i16
    }
}

/// The 16-bit number a signed one travels as.
pub open spec fn unsigned(n: i16) -> u16 {
    if n >= 0 {
        n as u16
    } else {
        (n + 0x10000) as u16
    }
}

pub fn join16(hi: u8, lo: u8) -> (r: u16)
    ensures
        r == u16_of(hi, lo),
{
    hi as u16 * 256 + lo as u16
}

pub fn read16(p: &[u8], i: usize) -> (r: u16)
    requires
        i + 1 < p@.len(),
    ensures
        r == u16_at(p@, i as int),
{
    join16(p[i], p[i + 1])
}

pub fn to_signed(n: u16) -> (r: i16)
    ensures
        r == signed(n),
{
    if n < 0x8000 {
        n as i16
    } else {
        (n as i32 - 0x10000) as i16
    }
}

pub fn to_unsigned(n: i16) -> (r: u16)
    ensures
        r == unsigned(n),
{
    if n >= 0 {
        n as u16
    } else {
        (n as i32 + 0x10000) as u16
    }
}

pub fn push16(out: &mut Vec<u8>, n: u16)
    ensures
        final(out)@ == old(out)@ + be16(n),
{
    out.push((n / 256) as u8);
    out.push((n % 256) as u8);
}

/// Appends every byte of `b`.
pub fn push_bytes(out: &mut Vec<u8>, b: &[u8])
    ensures
        final(out)@ == old(out)@ + b@,
{
    out.extend_from_slice(b);
    assert(out@ =~= old(out)@ + b@);
}

/// The low 16 bits of a count.
pub fn low16(n: usize) -> (r: u16)
    ensures
        r == n % 0x10000,
{
    (n % 0x10000) as u16
}

/// A number survives its two bytes.
pub broadcast proof fn lemma_be16(n: u16)
    ensures
        #![trigger be16(n)]
        be16(n).len() == 2,
        u16_of(be16(n)[0], be16(n)[1]) == n,
        be16(n)[0] == n / 256,
        be16(n)[1] == n % 256,
{
}

pub proof fn lemma_signed(n: u16, i: i16)
    ensures
        unsigned(signed(n)) == n,
        signed(unsigned(i)) == i,
{
}

// --------------------------------------------------------------------- names

/// How one byte of a name is shown: printable ASCII as itself, anything else
/// as a dot, since AppleTalk names are Mac OS Roman.
pub open spec fn name_char(b: u8) -> char {
    if 0x20 <= b < 0x7f {
        b as char
    } else {
        '.'
    }
}

/// The text of a run of name bytes.
pub open spec fn name_text(b: Seq<u8>) -> Seq<char> {
    Seq::new(b.len(), |i: int| name_char(b[i]))
}

/// A length-prefixed (Pascal) string at the front of `p`, and the rest.
pub open spec fn pstring_of(p: Seq<u8>) -> Option<(Seq<char>, Seq<u8>)> {
    if p.len() == 0 || p.len() < 1 + p[0] {
        None
    } else {
        Some((name_text(p.subrange(1, 1 + p[0])), p.skip(1 + p[0])))
    }
}

/// The longest name the protocols allow.
pub const MAX_NAME: usize = 32;

/// The bytes of a name that travel: at most the first 32 of its encoding.
pub open spec fn name_bytes(s: Seq<char>) -> Seq<u8> {
    let b = encode_utf8(s);
    if b.len() <= MAX_NAME {
        b
    } else {
        b.take(MAX_NAME as int)
    }
}

/// A length-prefixed string as it travels.
pub open spec fn pname(s: Seq<char>) -> Seq<u8> {
    seq![name_bytes(s).len() as u8] + name_bytes(s)
}

/// A name that travels unchanged: at most 32 characters, all printable ASCII.
#[verifier::opaque]
pub open spec fn name_ok(s: Seq<char>) -> bool {
    &&& s.len() <= MAX_NAME
    &&& forall|i: int| 0 <= i < s.len() ==> ' ' <= #[trigger] s[i] <= '~'
}

/// Reads a length-prefixed (Pascal) string, returning it and the rest.
/// Bytes outside printable ASCII become '.' rather than being mangled.
pub fn pstring(p: &[u8]) -> (r: Option<(String, &[u8])>)
    ensures
        match r {
            Some((s, rest)) => pstring_of(p@) == Some((s@, rest@)),
            None => pstring_of(p@) is None,
        },
{
    if p.len() == 0 {
        return None;
    }
    let len: usize = p[0] as usize;
    if p.len() < 1 + len {
        return None;
    }
    let mut s = String::new();
    let mut i: usize = 0;
    while i < len
        invariant
            i <= len,
            p@.len() >= 1 + len,
            s@ == name_text(p@.subrange(1, 1 + i)),
        decreases len - i,
    {
        let b = p[1 + i];
        let c = if 0x20 <= b && b < 0x7f {
            b as char
        } else {
            '.'
        };
        let ghost before = s@;
        s.push(c);
        i = i + 1;
        assert(s@ =~= name_text(p@.subrange(1, 1 + i)));
    }
    assert(s@ =~= name_text(p@.subrange(1, 1 + len)));
    let rest = slice_subrange(p, 1 + len, p.len());
    assert(rest@ =~= p@.skip(1 + len));
    Some((s, rest))
}

/// Writes a length-prefixed string, truncated at the protocol's 32 bytes.
pub fn put_pstring(out: &mut Vec<u8>, s: &str)
    ensures
        final(out)@ == old(out)@ + pname(s@),
{
    let b = s.as_bytes();
    let n: usize = if b.len() <= MAX_NAME {
        b.len()
    } else {
        MAX_NAME
    };
    out.push(n as u8);
    let part = slice_subrange(b, 0, n);
    push_bytes(out, part);
    assert(part@ =~= name_bytes(s@));
    assert(out@ =~= old(out)@ + pname(s@));
}

/// A plain name is one byte a character.
pub proof fn lemma_name_bytes(s: Seq<char>)
    requires
        name_ok(s),
    ensures
        name_bytes(s) == Seq::new(s.len(), |i: int| s[i] as u8),
        name_bytes(s).len() == s.len(),
        pname(s).len() == 1 + s.len(),
        name_text(name_bytes(s)) == s,
{
    reveal(name_ok);
    assert(is_ascii_chars(s));
    is_ascii_chars_encode_utf8(s);
    assert(encode_utf8(s) =~= Seq::new(s.len(), |i: int| s[i] as u8));
    assert(name_text(name_bytes(s)) =~= s);
}

/// Law: reading back a written name gives the name, and leaves what followed.
pub proof fn lemma_pstring_round_trip(s: Seq<char>, rest: Seq<u8>)
    requires
        name_ok(s),
    ensures
        pstring_of(pname(s) + rest) == Some((s, rest)),
{
    lemma_name_bytes(s);
    let p = pname(s) + rest;
    assert(p[0] == s.len());
    assert(p.subrange(1, 1 + p[0]) =~= name_bytes(s));
    assert(p.skip(1 + p[0]) =~= rest);
}

} // verus!
