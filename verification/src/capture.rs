//! What a capture decides: which interface to open, what an opened link
//! publishes, and how many frames were lost while nobody had room for them.

use vstd::prelude::*;

use crate::addr::{Ipv4Addr, MacAddr, SocketAddrV4};
use crate::fmt;
use crate::wire::{Llap, Packet};

verus! {

/// Decoded packets that may queue before the capture thread starts dropping.
pub const QUEUE: usize = 1024;

/// Which link an event arrived on. A router numbers its ports; everything else
/// has one link and uses port 0.
pub type PortId = u8;

#[derive(Debug)]
pub enum Event {
    Packet {
        /// Milliseconds since the epoch, stamped after the read, so it lags the
        /// wire by however long the frame sat in the kernel buffer.
        at: u64,
        port: PortId,
        packet: Packet,
    },
    /// An LLAP frame off any LocalTalk-shaped link (LToUDP or TashTalk), posted
    /// by the link's own reader thread.
    Llap { port: PortId, llap: Llap },
    /// One UDP datagram off the AURP socket.
    Aurp { from: SocketAddrV4, bytes: Vec<u8> },
    /// Frames discarded because the queue was full, counted since the last
    /// report. A frontend that ignores this shows a gap with no explanation.
    Dropped(u64),
    Error(String),
}

/// An address an interface has.
#[derive(Debug, Clone, Copy, PartialEq, Eq, Structural)]
pub enum IpAddr {
    V4(Ipv4Addr),
    V6,
}

/// A network interface, as far as choosing one goes.
#[derive(Debug)]
pub struct Interface {
    pub name: String,
    pub up: bool,
    pub loopback: bool,
    pub mac: Option<MacAddr>,
    pub ips: Vec<IpAddr>,
}

impl Interface {
    /// Whether this is the interface asked for: the one with that name, or,
    /// where none is named, one that is up, is not the loopback and has a
    /// hardware address.
    pub open spec fn suits(self, want: Option<Seq<char>>) -> bool {
        match want {
            Some(n) => self.name@ == n,
            None => self.up && !self.loopback && self.mac is Some,
        }
    }

    /// The first IPv4 address. An interface may have none; a multicast join
    /// then lets the kernel pick the interface.
    pub fn ip(&self) -> (r: Option<Ipv4Addr>)
        ensures
            match r {
                Some(a) => exists|i: int|
                    0 <= i < self.ips@.len() && #[trigger] self.ips@[i] == IpAddr::V4(a)
                        && forall|j: int| 0 <= j < i ==> #[trigger] self.ips@[j] == IpAddr::V6,
                None => forall|j: int|
                    0 <= j < self.ips@.len() ==> #[trigger] self.ips@[j] == IpAddr::V6,
            },
    {
        let mut i: usize = 0;
        while i < self.ips.len()
            invariant
                i <= self.ips@.len(),
                forall|j: int| 0 <= j < i ==> #[trigger] self.ips@[j] == IpAddr::V6,
            decreases self.ips@.len() - i,
        {
            if let IpAddr::V4(a) = self.ips[i] {
                return Some(a);
            }
            i = i + 1;
        }
        None
    }
}

/// Where in the list the interface to open stands: the first that suits.
pub fn choose_interface(all: &Vec<Interface>, want: Option<&str>) -> (r: Option<usize>)
    ensures
        ({
            let w = match want {
                Some(n) => Some(n@),
                None => None,
            };
            match r {
                Some(k) => k < all@.len() && all@[k as int].suits(w) && forall|j: int|
                    0 <= j < k ==> !(#[trigger] all@[j]).suits(w),
                None => forall|j: int| 0 <= j < all@.len() ==> !(#[trigger] all@[j]).suits(w),
            }
        }),
{
    let ghost w = match want {
        Some(n) => Some(n@),
        None => None,
    };
    let mut i: usize = 0;
    while i < all.len()
        invariant
            i <= all@.len(),
            w == (match want {
                Some(n) => Some(n@),
                None => None,
            }),
            forall|j: int| 0 <= j < i ==> !(#[trigger] all@[j]).suits(w),
        decreases all@.len() - i,
    {
        let a = &all[i];
        let suits = match want {
            Some(n) => a.name == fmt::text(n),
            None => a.up && !a.loopback && a.mac.is_some(),
        };
        if suits {
            return Some(i);
        }
        i = i + 1;
    }
    None
}

/// Frames lost since the last report. A producer drops rather than blocks when
/// the consumer falls behind, and says so as soon as there is room.
pub struct Backlog {
    pub dropped: u64,
}

impl Backlog {
    pub fn new() -> (r: Backlog)
        ensures
            r.dropped == 0,
    {
        Backlog { dropped: 0 }
    }

    /// The report that is owed, if anything was lost.
    pub fn due(&self) -> (r: Option<u64>)
        ensures
            r == (if self.dropped > 0 {
                Some(self.dropped)
            } else {
                None
            }),
    {
        if self.dropped > 0 {
            Some(self.dropped)
        } else {
            None
        }
    }

    /// The report went out.
    pub fn reported(&mut self)
        ensures
            final(self).dropped == 0,
    {
        self.dropped = 0;
    }

    /// A frame found no room. The count stops at the largest it can hold.
    pub fn lost(&mut self)
        ensures
            final(self).dropped == (if old(self).dropped < u64::MAX {
                (old(self).dropped + 1) as u64
            } else {
                u64::MAX
            }),
    {
        if self.dropped < u64::MAX {
            self.dropped = self.dropped + 1;
        }
    }
}

} // verus!
