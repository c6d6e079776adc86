//! Verified core of a CM108/CM119 USB audio driver daemon: the shared
//! message types and their binary wire format, the dispatch-latency
//! histogram, the client registry and the decisions of the server, the
//! GPIO report logic, the shared-buffer sequence lock and the client-side
//! conversions.

pub mod client;
pub mod codec;
pub mod framing;
pub mod gpio;
pub mod iso;
pub mod latency;
pub mod registry;
pub mod seqlock;
pub mod server;
pub mod types;
