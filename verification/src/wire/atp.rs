//! AppleTalk Transaction Protocol -- the transaction layer over DDP.

use vstd::prelude::*;
use vstd::slice::*;

use crate::fmt;
use crate::wire;
use crate::wire::{push16, push_bytes, read16, tail_of, Encode};

verus! {

/// ATP function code, from the top two bits of the control byte.
#[derive(Debug, Clone, Copy, PartialEq, Eq, Structural)]
pub enum Func {
    /// Transaction request.
    Req,
    /// Transaction response -- up to 8 per request, sequence-numbered.
    Resp,
    /// Transaction release, closing an exactly-once transaction.
    Rel,
}

impl Func {
    pub open spec fn text(self) -> Seq<char> {
        match self {
            Func::Req => "TReq"@,
            Func::Resp => "TResp"@,
            Func::Rel => "TRel"@,
        }
    }

    /// The top two bits of the control byte.
    pub open spec fn code(self) -> u8 {
        match self {
            Func::Req => 1,
            Func::Resp => 2,
            Func::Rel => 3,
        }
    }

    pub fn name(self) -> (r: &'static str)
        ensures
            r@ == self.text(),
    {
        match self {
            Func::Req => "TReq",
            Func::Resp => "TResp",
            Func::Rel => "TRel",
        }
    }
}

/// An ATP packet: an 8-byte header over DDP, carrying up to 578 bytes.
#[derive(Debug, PartialEq, Eq)]
pub struct Atp {
    pub func: Func,
    /// The raw control byte; the flag accessors read their bits from it.
    pub control: u8,
    /// TReq: bitmap of the responses being asked for. TResp: this packet's
    /// sequence number. Unused in TRel.
    pub bitmap: u8,
    pub tid: u16,
    /// Four bytes ATP does not interpret -- ASP and PAP put their own headers
    /// here rather than in the data.
    pub user_bytes: [u8; 4],
    pub data: Vec<u8>,
}

/// What a transaction packet says.
pub struct AtpView {
    pub func: Func,
    pub control: u8,
    pub bitmap: u8,
    pub tid: u16,
    pub user_bytes: Seq<u8>,
    pub data: Seq<u8>,
}

/// The exactly-once bit of a control byte.
pub open spec fn xo_bit(control: u8) -> bool {
    (control / 32) % 2 == 1
}

/// The end-of-message bit of a control byte.
pub open spec fn eom_bit(control: u8) -> bool {
    (control / 16) % 2 == 1
}

/// The send-status bit of a control byte.
pub open spec fn sts_bit(control: u8) -> bool {
    (control / 8) % 2 == 1
}

/// The release timeout in the low three bits of a control byte.
pub open spec fn timeout_of(control: u8) -> Seq<char> {
    let t = control % 8;
    if t == 0 {
        "30s"@
    } else if t == 1 {
        "1m"@
    } else if t == 2 {
        "2m"@
    } else if t == 3 {
        "4m"@
    } else if t == 4 {
        "8m"@
    } else {
        "reserved"@
    }
}

impl AtpView {
    /// The top two bits name the function; 00 is reserved.
    pub open spec fn parse(p: Seq<u8>) -> Option<AtpView> {
        if p.len() < 8 || p[0] / 64 == 0 {
            None
        } else {
            Some(
                AtpView {
                    func: if p[0] / 64 == 1 {
                        Func::Req
                    } else if p[0] / 64 == 2 {
                        Func::Resp
                    } else {
                        Func::Rel
                    },
                    control: p[0],
                    bitmap: p[1],
                    tid: wire::u16_at(p, 2),
                    user_bytes: p.subrange(4, 8),
                    data: p.skip(8),
                },
            )
        }
    }

    pub open spec fn bytes(self) -> Seq<u8> {
        seq![self.control, self.bitmap] + wire::be16(self.tid) + self.user_bytes + self.data
    }

    /// The control byte carries the function it belongs to, and there are
    /// four user bytes.
    pub open spec fn valid(self) -> bool {
        self.control / 64 == self.func.code() && self.user_bytes.len() == 4
    }

    pub open spec fn text(self) -> Seq<char> {
        self.func.text() + " tid "@ + fmt::dec(self.tid as nat) + (match self.func {
            Func::Req => " bitmap 0x"@ + fmt::hex(self.bitmap as nat, 2) + (if xo_bit(
                self.control,
            ) {
                " XO("@ + timeout_of(self.control) + ")"@
            } else {
                Seq::empty()
            }),
            Func::Resp => " seq "@ + fmt::dec(self.bitmap as nat) + (if eom_bit(self.control) {
                " EOM"@
            } else {
                Seq::empty()
            }) + (if sts_bit(self.control) {
                " STS"@
            } else {
                Seq::empty()
            }),
            Func::Rel => Seq::empty(),
        }) + " user "@ + fmt::hex(self.user_bytes[0] as nat, 2) + fmt::hex(
            self.user_bytes[1] as nat,
            2,
        ) + fmt::hex(self.user_bytes[2] as nat, 2) + fmt::hex(self.user_bytes[3] as nat, 2)
    }
}

impl DeepView for Atp {
    type V = AtpView;

    open spec fn deep_view(&self) -> AtpView {
        AtpView {
            func: self.func,
            control: self.control,
            bitmap: self.bitmap,
            tid: self.tid,
            user_bytes: self.user_bytes@,
            data: self.data@,
        }
    }
}

impl Clone for Atp {
    fn clone(&self) -> (r: Atp)
        ensures
            r.deep_view() == self.deep_view(),
    {
        Atp {
            func: self.func,
            control: self.control,
            bitmap: self.bitmap,
            tid: self.tid,
            user_bytes: self.user_bytes,
            data: slice_to_vec(self.data.as_slice()),
        }
    }
}

impl Atp {
    pub fn parse(p: &[u8]) -> (r: Option<Atp>)
        ensures
            r.deep_view() == AtpView::parse(p@),
    {
        if p.len() < 8 {
            return None;
        }
        let func = match p[0] / 64 {
            0 => return None,  // reserved
            1 => Func::Req,
            2 => Func::Resp,
            _ => Func::Rel,
        };
        let r = Atp {
            func,
            control: p[0],
            bitmap: p[1],
            tid: read16(p, 2),
            user_bytes: [p[4], p[5], p[6], p[7]],
            data: tail_of(p, 8),
        };
        assert(r.user_bytes@ =~= p@.subrange(4, 8));
        Some(r)
    }

    /// A transaction request for the responses in `bitmap`. A timeout asks
    /// for exactly-once service with that release timeout.
    pub fn request(
        tid: u16,
        bitmap: u8,
        timeout: Option<u8>,
        user_bytes: [u8; 4],
        data: Vec<u8>,
    ) -> (r: Atp)
        ensures
            r.deep_view() == (AtpView {
                func: Func::Req,
                control: match timeout {
                    Some(t) => (0x60 + t % 8) as u8,
                    None => 0x40,
                },
                bitmap,
                tid,
                user_bytes: user_bytes@,
                data: data@,
            }),
            r.deep_view().valid(),
    {
        let control: u8 = match timeout {
            Some(t) => 0x60 + t % 8,
            None => 0x40,
        };
        Atp { func: Func::Req, control, bitmap, tid, user_bytes, data }
    }

    /// One response of a transaction, the last of the set when `eom`.
    pub fn response(
        tid: u16,
        seq: u8,
        eom: bool,
        sts: bool,
        user_bytes: [u8; 4],
        data: Vec<u8>,
    ) -> (r: Atp)
        ensures
            r.deep_view() == (AtpView {
                func: Func::Resp,
                control: (0x80 + (if eom {
                    0x10int
                } else {
                    0
                }) + (if sts {
                    0x08int
                } else {
                    0
                })) as u8,
                bitmap: seq,
                tid,
                user_bytes: user_bytes@,
                data: data@,
            }),
            r.deep_view().valid(),
            eom_bit(r.control) == eom,
            sts_bit(r.control) == sts,
    {
        let e: u8 = if eom {
            0x10
        } else {
            0
        };
        let s: u8 = if sts {
            0x08
        } else {
            0
        };
        Atp { func: Func::Resp, control: 0x80 + e + s, bitmap: seq, tid, user_bytes, data }
    }

    /// A release, closing an exactly-once transaction.
    pub fn release(tid: u16) -> (r: Atp)
        ensures
            r.deep_view() == (AtpView {
                func: Func::Rel,
                control: 0xc0,
                bitmap: 0,
                tid,
                user_bytes: seq![0, 0, 0, 0],
                data: Seq::empty(),
            }),
            r.deep_view().valid(),
    {
        let r = Atp {
            func: Func::Rel,
            control: 0xc0,
            bitmap: 0,
            tid,
            user_bytes: [0, 0, 0, 0],
            data: Vec::new(),
        };
        assert(r.user_bytes@ =~= seq![0, 0, 0, 0]);
        r
    }

    /// Exactly-once service: the responder must hold the reply until released.
    pub fn xo(&self) -> (r: bool)
        ensures
            r == xo_bit(self.control),
    {
        (self.control / 32) % 2 == 1
    }

    /// End of message -- this is the last response in the set.
    pub fn eom(&self) -> (r: bool)
        ensures
            r == eom_bit(self.control),
    {
        (self.control / 16) % 2 == 1
    }

    /// Send transaction status: the requester should retransmit its bitmap.
    pub fn sts(&self) -> (r: bool)
        ensures
            r == sts_bit(self.control),
    {
        (self.control / 8) % 2 == 1
    }

    /// How long the responder holds exactly-once state without a TRel. A
    /// Phase 2 addition; earlier senders leave the field zero.
    pub fn trel_timeout(&self) -> (r: &'static str)
        ensures
            r@ == timeout_of(self.control),
    {
        match self.control % 8 {
            0 => "30s",
            1 => "1m",
            2 => "2m",
            3 => "4m",
            4 => "8m",
            _ => "reserved",
        }
    }

    pub fn to_string(&self) -> (r: String)
        ensures
            r@ == self.deep_view().text(),
    {
        let mut s = fmt::text(self.func.name());
        fmt::push_text(&mut s, " tid ");
        fmt::push_dec(&mut s, self.tid as u64);
        match self.func {
            Func::Req => {
                fmt::push_text(&mut s, " bitmap 0x");
                fmt::push_hex(&mut s, self.bitmap as u64, 2);
                if self.xo() {
                    fmt::push_text(&mut s, " XO(");
                    fmt::push_text(&mut s, self.trel_timeout());
                    fmt::push_text(&mut s, ")");
                }
            },
            Func::Resp => {
                fmt::push_text(&mut s, " seq ");
                fmt::push_dec(&mut s, self.bitmap as u64);
                if self.eom() {
                    fmt::push_text(&mut s, " EOM");
                }
                if self.sts() {
                    fmt::push_text(&mut s, " STS");
                }
            },
            Func::Rel => {},
        }
        fmt::push_text(&mut s, " user ");
        fmt::push_hex(&mut s, self.user_bytes[0] as u64, 2);
        fmt::push_hex(&mut s, self.user_bytes[1] as u64, 2);
        fmt::push_hex(&mut s, self.user_bytes[2] as u64, 2);
        fmt::push_hex(&mut s, self.user_bytes[3] as u64, 2);
        assert(s@ =~= self.deep_view().text());
        s
    }
}

impl Encode for Atp {
    open spec fn encoding(&self) -> Seq<u8> {
        self.deep_view().bytes()
    }

    fn encode(&self, out: &mut Vec<u8>) {
        out.push(self.control);
        out.push(self.bitmap);
        push16(out, self.tid);
        push_bytes(out, self.user_bytes.as_slice());
        push_bytes(out, self.data.as_slice());
        assert(out@ =~= old(out)@ + self.encoding());
    }
}

/// Law: a transaction packet reads back as itself.
pub proof fn law_round_trip(a: AtpView)
    requires
        a.valid(),
    ensures
        AtpView::parse(a.bytes()) == Some(a),
{
    broadcast use crate::wire::lemma_be16;

    let p = a.bytes();
    assert(p.subrange(4, 8) =~= a.user_bytes);
    assert(p.skip(8) =~= a.data);
}

} // verus!
