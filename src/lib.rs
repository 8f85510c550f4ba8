//! The administrative control plane of a routing node: endpoint parsing, the peer
//! registry and route views it serves, and the request handlers over them.
pub mod api;
pub mod decimal;
pub mod endpoint;
pub mod metric;
pub mod peer;
pub mod route;

pub use api::{AddPeer, Reply, Status};
pub use endpoint::{Endpoint, EndpointParseError, Ipv4, Protocol};
pub use metric::Metric;
pub use peer::{ConnectionState, PeerExists, PeerManager, PeerNotFound, PeerStats};
pub use route::{Info, Route, RouteRecord, Router, INFINITE_METRIC};
