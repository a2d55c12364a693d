//! AppleTalk Echo Protocol.

use vstd::prelude::*;

use crate::fmt;
use crate::wire::{push_bytes, tail_of, Encode};

verus! {

#[derive(Debug, Clone, Copy, PartialEq, Eq, Structural)]
pub enum Echo {
    Request,
    Reply,
}

impl Echo {
    pub open spec fn text(self) -> Seq<char> {
        match self {
            Echo::Request => "request"@,
            Echo::Reply => "reply"@,
        }
    }

    /// The function code this travels as.
    pub open spec fn code(self) -> u8 {
        match self {
            Echo::Request => 1,
            Echo::Reply => 2,
        }
    }

    pub fn name(self) -> (r: &'static str)
        ensures
            r@ == self.text(),
    {
        match self {
            Echo::Request => "request",
            Echo::Reply => "reply",
        }
    }
}

/// An AEP packet: a function code, then data the replier echoes back
/// unchanged. There is no sequence number -- a pinger matches replies to
/// requests by putting its own marker in the data.
#[derive(Debug, PartialEq, Eq)]
pub struct Aep {
    pub func: Echo,
    pub data: Vec<u8>,
}

/// What an echo packet says.
pub struct AepView {
    pub func: Echo,
    pub data: Seq<u8>,
}

impl AepView {
    pub open spec fn parse(p: Seq<u8>) -> Option<AepView> {
        if p.len() == 0 {
            None
        } else if p[0] == 1 {
            Some(AepView { func: Echo::Request, data: p.skip(1) })
        } else if p[0] == 2 {
            Some(AepView { func: Echo::Reply, data: p.skip(1) })
        } else {
            None
        }
    }

    pub open spec fn bytes(self) -> Seq<u8> {
        seq![self.func.code()] + self.data
    }

    pub open spec fn text(self) -> Seq<char> {
        self.func.text() + " "@ + fmt::dec(self.data.len()) + " bytes"@
    }
}

impl DeepView for Aep {
    type V = AepView;

    open spec fn deep_view(&self) -> AepView {
        AepView { func: self.func, data: self.data@ }
    }
}

impl Aep {
    pub fn parse(p: &[u8]) -> (r: Option<Aep>)
        ensures
            r.deep_view() == AepView::parse(p@),
    {
        if p.len() == 0 {
            return None;
        }
        let func = match p[0] {
            1 => Echo::Request,
            2 => Echo::Reply,
            _ => return None,
        };
        Some(Aep { func, data: tail_of(p, 1) })
    }

    pub fn to_string(&self) -> (r: String)
        ensures
            r@ == self.deep_view().text(),
    {
        let mut s = fmt::text(self.func.name());
        fmt::push_text(&mut s, " ");
        fmt::push_dec(&mut s, self.data.len() as u64);
        fmt::push_text(&mut s, " bytes");
        s
    }
}

impl Encode for Aep {
    open spec fn encoding(&self) -> Seq<u8> {
        self.deep_view().bytes()
    }

    fn encode(&self, out: &mut Vec<u8>) {
        out.push(
            match self.func {
                Echo::Request => 1,
                Echo::Reply => 2,
            },
        );
        push_bytes(out, self.data.as_slice());
        assert(out@ =~= old(out)@ + self.encoding());
    }
}

/// Law: an echo packet reads back as itself.
pub proof fn law_round_trip(a: AepView)
    ensures
        AepView::parse(a.bytes()) == Some(a),
{
    assert(a.bytes().skip(1) =~= a.data);
}

/// Law: what an echo packet was read from is what it is sent as.
pub proof fn law_reads_and_writes_agree(p: Seq<u8>)
    requires
        AepView::parse(p) is Some,
    ensures
        AepView::parse(p)->0.bytes() == p,
{
    assert(AepView::parse(p)->0.bytes() =~= p);
}

} // verus!
