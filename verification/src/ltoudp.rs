//! LocalTalk over UDP multicast (LToUDP) -- the transport Mini vMac, Snow,
//! jrouter and tashrouter use to carry LocalTalk between hosts.
//!
//! Each datagram is a 4-byte sender ID and then an LLAP frame with its FCS
//! already stripped. The sender ID exists only so a sender can discard its own
//! datagrams coming back off the group.

use vstd::prelude::*;
use vstd::slice::*;

use crate::addr::Ipv4Addr;
use crate::wire::llap;
use crate::wire::llap::LlapView;
use crate::wire::{push_bytes, Encode, Llap};

verus! {

/// The multicast group. Its last two octets spell "LT".
#[verifier::allow_in_spec]
pub fn group() -> Ipv4Addr
    returns
        Ipv4Addr(239, 192, 76, 84),
{
    Ipv4Addr(239, 192, 76, 84)
}

pub const PORT: u16 = 1954;

/// The largest *legal* datagram: 4 bytes of sender ID, a 3-byte LLAP header,
/// and the 600-byte maximum data field. A read buffer is one byte larger than
/// this, so that filling it is an unambiguous truncation signal rather than
/// this size.
pub const MAX: usize = 607;

/// Prefixes a frame with the sender ID, which is the whole of the framing.
pub fn datagram(id: [u8; 4], f: &Llap) -> (r: Vec<u8>)
    ensures
        r@ == id@ + f.deep_view().bytes(),
{
    let mut out: Vec<u8> = Vec::new();
    push_bytes(&mut out, &id);
    assert(out@ =~= id@);
    f.encode(&mut out);
    out
}

/// What an arriving datagram means. None for anything too short to be a frame,
/// anything larger than a legal frame could ever be (a read truncates
/// silently, so a datagram filling the oversized read buffer means it did not
/// fit), anything we sent ourselves, and anything that does not parse.
pub open spec fn inbound_of(b: Seq<u8>, id: Seq<u8>) -> Option<LlapView> {
    if b.len() < 7 || b.len() > MAX || b.take(4) == id {
        None
    } else {
        LlapView::parse(b.skip(4))
    }
}

pub fn inbound(buf: &[u8], id: [u8; 4]) -> (r: Option<Llap>)
    ensures
        r.deep_view() == inbound_of(buf@, id@),
{
    if buf.len() < 7 || buf.len() > MAX {
        return None;
    }
    if buf[0] == id[0] && buf[1] == id[1] && buf[2] == id[2] && buf[3] == id[3] {
        assert(buf@.take(4) =~= id@);
        return None;
    }
    proof {
        let t = buf@.take(4);
        if t == id@ {
            assert(t[0] == id@[0] && t[1] == id@[1] && t[2] == id@[2] && t[3] == id@[3]);
        }
    }
    let body = slice_subrange(buf, 4, buf.len());
    assert(body@ =~= buf@.skip(4));
    Llap::parse(body)
}

/// Law: what one member of the group sends every other one receives as it was,
/// and the sender itself does not.
pub proof fn law_the_group_hears_it_once(id: Seq<u8>, other: Seq<u8>, l: LlapView)
    requires
        id.len() == 4,
        other.len() == 4,
        l.valid(),
    ensures
        id != other ==> inbound_of(id + l.bytes(), other) == Some(l),
        inbound_of(id + l.bytes(), id) is None,
{
    let b = id + l.bytes();
    assert(b.take(4) =~= id);
    assert(b.skip(4) =~= l.bytes());
    llap::law_round_trip(l);
}

/// Law: a datagram is heard from its fifth byte on, unless it is shorter than 7
/// bytes or longer than 607, or begins with our own four.
pub proof fn law_what_is_heard(b: Seq<u8>, id: Seq<u8>)
    requires
        id.len() == 4,
    ensures
        b.len() < 7 || b.len() > 607 ==> inbound_of(b, id) is None,
        7 <= b.len() <= 607 ==> inbound_of(b, id) == (if b[0] == id[0] && b[1] == id[1] && b[2]
            == id[2] && b[3] == id[3] {
            None
        } else {
            LlapView::parse(b.skip(4))
        }),
{
    if b.len() >= 7 {
        let t = b.take(4);
        assert(t[0] == b[0] && t[1] == b[1] && t[2] == b[2] && t[3] == b[3]);
        if b[0] == id[0] && b[1] == id[1] && b[2] == id[2] && b[3] == id[3] {
            assert(t =~= id);
        }
    }
}

} // verus!
