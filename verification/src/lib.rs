//! AppleTalk: the wire formats, the address claim and name services of a
//! node, the LocalTalk links, the bridge, and the routing core of an exterior
//! router, each with its behaviour stated as a contract and proved.

pub mod addr;
pub mod amt;
pub mod bridge;
pub mod bridge_laws;
pub mod capture;
pub mod chars;
pub mod cli;
pub mod config;
pub mod fmt;
pub mod ltoudp;
pub mod names;
pub mod node;
pub mod node_laws;
pub mod order;
pub mod peer_list;
pub mod repeat;
pub mod report;
pub mod router;
pub mod runtime;
pub mod session;
pub mod tashtalk;
pub mod text;
pub mod wire;
