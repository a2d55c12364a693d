//! Link and internet addresses: the six-byte Ethernet address and the
//! four-byte IPv4 address, as plain octets.

use vstd::prelude::*;

use crate::fmt;

verus! {

/// An Ethernet hardware address, most significant octet first.
#[derive(Debug, Clone, Copy, PartialEq, Eq, Structural)]
pub struct MacAddr(pub u8, pub u8, pub u8, pub u8, pub u8, pub u8);

impl MacAddr {
    /// The six octets in wire order.
    pub open spec fn bytes(self) -> Seq<u8> {
        seq![self.0, self.1, self.2, self.3, self.4, self.5]
    }

    /// The address whose octets are `b`.
    pub open spec fn of(b: Seq<u8>) -> MacAddr {
        MacAddr(b[0], b[1], b[2], b[3], b[4], b[5])
    }

    /// Six two-digit hexadecimal octets with colons between them.
    pub open spec fn text(self) -> Seq<char> {
        fmt::hex(self.0 as nat, 2) + ":"@ + fmt::hex(self.1 as nat, 2) + ":"@ + fmt::hex(self.2 as nat, 2) + ":"@
            + fmt::hex(self.3 as nat, 2) + ":"@ + fmt::hex(self.4 as nat, 2) + ":"@ + fmt::hex(self.5 as nat, 2)
    }

    pub fn new(a: u8, b: u8, c: u8, d: u8, e: u8, f: u8) -> (r: MacAddr)
        ensures
            r == MacAddr(a, b, c, d, e, f),
    {
        MacAddr(a, b, c, d, e, f)
    }

    /// The all-zero address, which names no interface.
    pub fn zero() -> (r: MacAddr)
        ensures
            r == MacAddr(0, 0, 0, 0, 0, 0),
    {
        MacAddr(0, 0, 0, 0, 0, 0)
    }

    pub fn to_string(&self) -> (r: String)
        ensures
            r@ == self.text(),
    {
        let mut s = String::new();
        self.write(&mut s);
        s
    }

    /// Appends the printed form.
    pub fn write(&self, out: &mut String)
        ensures
            final(out)@ == old(out)@ + self.text(),
    {
        fmt::push_hex(out, self.0 as u64, 2);
        fmt::push_text(out, ":");
        fmt::push_hex(out, self.1 as u64, 2);
        fmt::push_text(out, ":");
        fmt::push_hex(out, self.2 as u64, 2);
        fmt::push_text(out, ":");
        fmt::push_hex(out, self.3 as u64, 2);
        fmt::push_text(out, ":");
        fmt::push_hex(out, self.4 as u64, 2);
        fmt::push_text(out, ":");
        fmt::push_hex(out, self.5 as u64, 2);
    }
}

/// An IPv4 address, most significant octet first.
#[derive(Debug, Clone, Copy, PartialEq, Eq, Structural)]
pub struct Ipv4Addr(pub u8, pub u8, pub u8, pub u8);

impl Ipv4Addr {
    /// The address as a number; addresses are ordered by it.
    pub open spec fn key(self) -> int {
        ((self.0 * 256 + self.1) * 256 + self.2) * 256 + self.3
    }

    /// The four octets in wire order.
    pub open spec fn bytes(self) -> Seq<u8> {
        seq![self.0, self.1, self.2, self.3]
    }

    /// Dotted decimal.
    pub open spec fn text(self) -> Seq<char> {
        fmt::dec(self.0 as nat) + "."@ + fmt::dec(self.1 as nat) + "."@ + fmt::dec(self.2 as nat) + "."@ + fmt::dec(
            self.3 as nat,
        )
    }

    pub fn new(a: u8, b: u8, c: u8, d: u8) -> (r: Ipv4Addr)
        ensures
            r == Ipv4Addr(a, b, c, d),
    {
        Ipv4Addr(a, b, c, d)
    }

    pub fn octets(&self) -> (r: [u8; 4])
        ensures
            r@ == self.bytes(),
    {
        [self.0, self.1, self.2, self.3]
    }

    /// The number addresses are ordered by.
    pub fn number(&self) -> (r: u32)
        ensures
            r == self.key(),
    {
        ((self.0 as u32 * 256 + self.1 as u32) * 256 + self.2 as u32) * 256 + self.3 as u32
    }

    pub fn to_string(&self) -> (r: String)
        ensures
            r@ == self.text(),
    {
        let mut s = String::new();
        self.write(&mut s);
        s
    }

    /// Appends the printed form.
    pub fn write(&self, out: &mut String)
        ensures
            final(out)@ == old(out)@ + self.text(),
    {
        fmt::push_dec(out, self.0 as u64);
        fmt::push_text(out, ".");
        fmt::push_dec(out, self.1 as u64);
        fmt::push_text(out, ".");
        fmt::push_dec(out, self.2 as u64);
        fmt::push_text(out, ".");
        fmt::push_dec(out, self.3 as u64);
    }
}

/// An IPv4 address and a UDP port.
#[derive(Debug, Clone, Copy, PartialEq, Eq, Structural)]
pub struct SocketAddrV4 {
    pub ip: Ipv4Addr,
    pub port: u16,
}

/// Two addresses with the same number are the same address.
pub proof fn lemma_key_identifies(a: Ipv4Addr, b: Ipv4Addr)
    requires
        a.key() == b.key(),
    ensures
        a == b,
{
    let (p, q) = (a.0 * 256 + a.1, b.0 * 256 + b.1);
    let (r, s) = (p * 256 + a.2, q * 256 + b.2);
    assert(r * 256 + a.3 == s * 256 + b.3);
    assert(r == s && a.3 == b.3);
    assert(p == q && a.2 == b.2);
}

} // verus!
