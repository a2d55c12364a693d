//! What was asked for on the command line: the commands, and the flags
//! controlling what gets printed.

use vstd::prelude::*;

use crate::fmt;
use crate::node;
use crate::node::{parse_addr, BadAddr, Want};
use crate::wire::frame::{BodyView, PacketView};
use crate::wire::{Body, Packet};

verus! {

#[derive(Debug, Clone, Copy, PartialEq, Eq, Structural)]
pub enum Proto {
    Aarp,
    Rtmp,
    Nbp,
    Atp,
    Aep,
    Zip,
    Adsp,
    Other,
}

impl Proto {
    /// Identity comes from the DDP type byte, not from whether we have a
    /// parser.
    pub open spec fn in_body(b: BodyView) -> Proto {
        match b {
            BodyView::Aarp(_) => Proto::Aarp,
            BodyView::Ddp(d, _) => if d.typ == 1 || d.typ == 5 {
                Proto::Rtmp
            } else if d.typ == 2 {
                Proto::Nbp
            } else if d.typ == 3 {
                Proto::Atp
            } else if d.typ == 4 {
                Proto::Aep
            } else if d.typ == 6 {
                Proto::Zip
            } else if d.typ == 7 {
                Proto::Adsp
            } else {
                Proto::Other
            },
            BodyView::Unknown => Proto::Other,
        }
    }

    pub fn of(p: &Packet) -> (r: Proto)
        ensures
            r == Proto::in_body(p.deep_view().body),
    {
        match &p.body {
            Body::Aarp(_) => Proto::Aarp,
            Body::Ddp(d, _) => match d.typ {
                1 | 5 => Proto::Rtmp,
                2 => Proto::Nbp,
                3 => Proto::Atp,
                4 => Proto::Aep,
                6 => Proto::Zip,
                7 => Proto::Adsp,
                _ => Proto::Other,
            },
            Body::Unknown => Proto::Other,
        }
    }
}

#[derive(Debug, PartialEq, Eq)]
pub struct Output {
    /// Hex dump payloads.
    pub hex: bool,
    /// Hide the Ethernet frame line.
    pub no_link: bool,
    /// Hide the DDP datagram line.
    pub no_net: bool,
    /// Show only these protocols.
    pub only: Vec<Proto>,
    /// Hide these protocols.
    pub hide: Vec<Proto>,
}

/// The output flags, as data.
pub struct OutputView {
    pub hex: bool,
    pub no_link: bool,
    pub no_net: bool,
    pub only: Seq<Proto>,
    pub hide: Seq<Proto>,
}

impl DeepView for Output {
    type V = OutputView;

    open spec fn deep_view(&self) -> OutputView {
        OutputView {
            hex: self.hex,
            no_link: self.no_link,
            no_net: self.no_net,
            only: self.only@,
            hide: self.hide@,
        }
    }
}

impl OutputView {
    pub open spec fn plain() -> OutputView {
        OutputView {
            hex: false,
            no_link: false,
            no_net: false,
            only: Seq::empty(),
            hide: Seq::empty(),
        }
    }

    /// Whether a packet is printed at all. Empty lists show everything.
    pub open spec fn shows(self, p: PacketView) -> bool {
        if self.only.len() > 0 {
            self.only.contains(Proto::in_body(p.body))
        } else {
            !self.hide.contains(Proto::in_body(p.body))
        }
    }
}

/// Whether a protocol is in a list.
fn lists(ps: &Vec<Proto>, p: Proto) -> (r: bool)
    ensures
        r == ps@.contains(p),
{
    let mut i: usize = 0;
    while i < ps.len()
        invariant
            i <= ps@.len(),
            forall|j: int| 0 <= j < i ==> #[trigger] ps@[j] != p,
        decreases ps@.len() - i,
    {
        if ps[i] == p {
            assert(ps@[i as int] == p);
            return true;
        }
        i = i + 1;
    }
    false
}

impl Output {
    /// Whether this packet is printed at all.
    pub fn shows(&self, p: &Packet) -> (r: bool)
        ensures
            r == self.deep_view().shows(p.deep_view()),
    {
        let proto = Proto::of(p);
        if self.only.len() > 0 {
            return lists(&self.only, proto);
        }
        !lists(&self.hide, proto)
    }

    /// Whether no flag was given.
    pub fn is_plain(&self) -> (r: bool)
        ensures
            r == (self.deep_view() == OutputView::plain()),
    {
        let r = !self.hex && !self.no_link && !self.no_net && self.only.len() == 0
            && self.hide.len() == 0;
        proof {
            if r {
                assert(self.only@ =~= Seq::empty());
                assert(self.hide@ =~= Seq::empty());
            }
        }
        r
    }
}

impl Default for Output {
    fn default() -> (r: Output)
        ensures
            r.deep_view() == OutputView::plain(),
    {
        let r = Output {
            hex: false,
            no_link: false,
            no_net: false,
            only: Vec::new(),
            hide: Vec::new(),
        };
        assert(r.only@ =~= Seq::empty());
        assert(r.hide@ =~= Seq::empty());
        r
    }
}

/// Which other link to bridge.
#[derive(Debug, Clone, Copy, PartialEq, Eq, Structural)]
pub enum Link {
    /// LocalTalk over UDP multicast (LToUDP).
    Udp,
}

pub enum Command {
    /// Print AppleTalk traffic as it arrives. The default.
    Monitor { output: Output },
    /// List the entities registered in a zone. Defaults to the local zone.
    Nodes {
        /// Zone to look in; `*` means this cable only.
        zone: Option<String>,
    },
    /// Echo a node, by address or by NBP name.
    Ping {
        /// `net.node`, or `object:type@zone`.
        target: String,
        /// Number of echoes to send.
        count: u16,
    },
    /// List the zones on the internet.
    Zones,
    /// Bridge another AppleTalk link onto this Ethernet, as one network.
    Bridge { link: Link },
}

pub struct Cli {
    /// NIC to capture on; defaults to the first up, non-loopback one with a
    /// MAC.
    pub interface: Option<String>,
    /// Claim this address instead of discovering one, as `net.node`.
    pub node: Option<String>,
    /// Claim an address on this network, choosing the node number for you.
    pub net: Option<u16>,
    /// Flags for the implicit `monitor`; they conflict with naming a
    /// subcommand.
    pub output: Output,
    pub command: Option<Command>,
}

impl Cli {
    /// The output flags in force, whichever side of the subcommand they came
    /// from. Combining a top-level flag with a subcommand is rejected, so in
    /// practice only one side is ever set.
    pub fn output(&self) -> (r: &Output)
        ensures
            r.deep_view() == (match self.command {
                Some(Command::Monitor { output }) => output.deep_view(),
                _ => self.output.deep_view(),
            }),
    {
        match &self.command {
            Some(Command::Monitor { output }) => output,
            _ => &self.output,
        }
    }

    /// Whether an output flag was given before a subcommand name -- ambiguous,
    /// since a flag there could mean either "implicit monitor" or "meant for
    /// the subcommand that follows".
    pub fn conflicting_output(&self) -> (r: bool)
        ensures
            r == (self.command is Some && self.output.deep_view() != OutputView::plain()),
    {
        self.command.is_some() && !self.output.is_plain()
    }

    /// How much of our address the flags pin down. `--node` and `--net` are
    /// alternatives, so at most one is set.
    pub fn want(&self) -> (r: Result<Want, BadAddr>)
        ensures
            match (self.node, self.net) {
                (Some(s), _) => match node::addr_of(s@) {
                    Some(a) => r == Ok::<Want, BadAddr>(Want::Addr(a)),
                    None => r is Err && r->Err_0.text@ == s@,
                },
                (None, Some(net)) => r == Ok::<Want, BadAddr>(Want::Net(net)),
                (None, None) => r == Ok::<Want, BadAddr>(Want::Discover),
            },
    {
        match &self.node {
            Some(s) => match parse_addr(s.as_str()) {
                Ok(a) => Ok(Want::Addr(a)),
                Err(e) => Err(e),
            },
            None => match self.net {
                Some(net) => Ok(Want::Net(net)),
                None => Ok(Want::Discover),
            },
        }
    }
}

/// One line of the zone list, with the zone we are actually in marked.
pub open spec fn zone_text(zone: Seq<char>, ours: Seq<char>) -> Seq<char> {
    if zone == ours {
        zone + " *"@
    } else {
        zone
    }
}

pub fn zone_line(zone: &String, ours: &String) -> (r: String)
    ensures
        r@ == zone_text(zone@, ours@),
{
    let mut s = fmt::text(zone.as_str());
    if *zone == *ours {
        fmt::push_text(&mut s, " *");
    }
    s
}

/// Law: a packet that names its protocol by AARP or by the type of its datagram
/// is shown where that protocol is among those asked for, or, where none was
/// asked for, is not among those hidden; a list of the one leaves the other
/// without effect.
pub proof fn law_what_is_shown(o: OutputView, p: PacketView)
    ensures
        ({
            let k = match p.body {
                BodyView::Aarp(_) => Proto::Aarp,
                BodyView::Unknown => Proto::Other,
                BodyView::Ddp(d, _) => match d.typ {
                    1u8 => Proto::Rtmp,
                    2u8 => Proto::Nbp,
                    3u8 => Proto::Atp,
                    4u8 => Proto::Aep,
                    5u8 => Proto::Rtmp,
                    6u8 => Proto::Zip,
                    7u8 => Proto::Adsp,
                    _ => Proto::Other,
                },
            };
            &&& o.only.len() == 0 && o.hide.len() == 0 ==> o.shows(p)
            &&& o.only.contains(k) ==> o.shows(p)
            &&& o.only.len() > 0 && !o.only.contains(k) ==> !o.shows(p)
            &&& o.only.len() == 0 ==> o.shows(p) == !o.hide.contains(k)
        }),
{
}

} // verus!
