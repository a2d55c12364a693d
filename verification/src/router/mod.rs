//! The router: forwards DDP between ports and AURP peers, and runs the
//! routing, zone and name services a router owes its cables.
//!
//! Everything under here is pure: it is handed what arrived and the time in
//! milliseconds, and hands back what to send.

use vstd::prelude::*;

pub use crate::capture::PortId;

use crate::wire::ddp::DdpView;
use crate::wire::frame::FrameView;
use crate::wire::llap::LlapView;
use crate::wire::{Ddp, Frame, Ipv4Addr, Llap};

pub mod aurp;
pub mod dialog;
pub mod dump;
pub mod exchange_laws;
pub mod local;
pub mod pages;
pub mod peers;
pub mod port_laws;
pub mod ports;
pub mod route_laws;
pub mod service_laws;
pub mod timers;
pub mod table;
pub mod table_laws;
pub mod tunnel_laws;

verus! {

/// Where a datagram goes: out one of our own ports, or down a tunnel.
#[derive(Debug, Clone, Copy, PartialEq, Eq, Structural)]
pub enum Target {
    Port(PortId),
    Peer(Ipv4Addr),
}

#[derive(Debug, PartialEq, Eq)]
pub enum Dest {
    Node(u8),
    Broadcast,
    Zone(String),
}

/// Where on a port a datagram goes.
pub enum DestView {
    Node(u8),
    Broadcast,
    Zone(Seq<char>),
}

impl DeepView for Dest {
    type V = DestView;

    open spec fn deep_view(&self) -> DestView {
        match self {
            Dest::Node(n) => DestView::Node(*n),
            Dest::Broadcast => DestView::Broadcast,
            Dest::Zone(z) => DestView::Zone(z@),
        }
    }
}

impl Clone for Dest {
    fn clone(&self) -> (r: Dest)
        ensures
            r.deep_view() == self.deep_view(),
    {
        match self {
            Dest::Node(n) => Dest::Node(*n),
            Dest::Broadcast => Dest::Broadcast,
            Dest::Zone(z) => Dest::Zone(z.clone()),
        }
    }
}

/// A datagram a service wants sent. `On` names a port; `Route` asks the router
/// to forward it as if it originated here (hop count untouched, best route
/// chosen).
#[derive(Debug, PartialEq, Eq)]
pub enum Emit {
    On { port: PortId, dest: Dest, ddp: Ddp },
    Route(Ddp),
}

/// What a service wants sent.
pub enum EmitView {
    On { port: PortId, dest: DestView, ddp: DdpView },
    Route(DdpView),
}

impl DeepView for Emit {
    type V = EmitView;

    open spec fn deep_view(&self) -> EmitView {
        match self {
            Emit::On { port, dest, ddp } => EmitView::On {
                port: *port,
                dest: dest.deep_view(),
                ddp: ddp.deep_view(),
            },
            Emit::Route(d) => EmitView::Route(d.deep_view()),
        }
    }
}

#[derive(Debug, PartialEq, Eq)]
pub enum Action {
    ToEther { port: PortId, frame: Frame },
    ToLlap { port: PortId, llap: Llap },
    ToPeer { peer: Ipv4Addr, bytes: Vec<u8> },
    /// TashTalk only: program the firmware's node-ID bitmap.
    SetNode { port: PortId, node: Option<u8> },
    Log(String),
}

/// What the router wants done.
pub enum ActionView {
    ToEther { port: PortId, frame: FrameView },
    ToLlap { port: PortId, llap: LlapView },
    ToPeer { peer: Ipv4Addr, bytes: Seq<u8> },
    SetNode { port: PortId, node: Option<u8> },
    Log(Seq<char>),
}

impl DeepView for Action {
    type V = ActionView;

    open spec fn deep_view(&self) -> ActionView {
        match self {
            Action::ToEther { port, frame } => ActionView::ToEther {
                port: *port,
                frame: frame.deep_view(),
            },
            Action::ToLlap { port, llap } => ActionView::ToLlap {
                port: *port,
                llap: llap.deep_view(),
            },
            Action::ToPeer { peer, bytes } => ActionView::ToPeer { peer: *peer, bytes: bytes@ },
            Action::SetNode { port, node } => ActionView::SetNode { port: *port, node: *node },
            Action::Log(s) => ActionView::Log(s@),
        }
    }
}

} // verus!
