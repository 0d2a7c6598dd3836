//! A directory of network clients: sign-up, lookup by MAC address or user
//! name, capacity-bounded admission, quorum-based eviction, and the decoding
//! and authorization of the requests that drive it.

pub mod address;
pub mod directory;
pub mod quorum;
pub mod request;
pub mod server;

pub use address::{Ipv4, MacAddress, parse_ipv4, parse_mac};
pub use directory::{CapacityBelowSize, CapacityExceeded, ClientDirectory, ClientRecord};
pub use quorum::{DropOutcome, EvictionQuorum, cast_vote};
pub use request::{AdminRequest, ClientRequest, Document, JsonLeaf, Request, decode, is_valid_key};
pub use server::{PeerAddr, Reply, Server, StartConfig};
