//! A minimal telemetry ingestion and query library.
//!
//! Remote agents ("collectors") push periodic resource-usage samples over a
//! persistent TCP connection using a compact binary protocol; this library
//! holds the verified core of that service:
//!
//! - [`codec`]: the wire protocol's framing and decoding contract,
//! - [`conn`]: the per-read decision logic of a connection handler,
//! - [`store`]: the append-only time-series store and its read projections,
//! - [`uuid_text`]: the textual form of a collector identifier.
//!
//! The unverifiable edges (sockets, the HTTP query surface, clocks) live in a
//! thin application layer that hands this library plain values.

pub mod codec;
pub mod conn;
pub mod store;
pub mod uuid_text;

pub use conn::ConnectionStep;

pub use codec::CollectorCommandV1;
pub use codec::ProtocolDecodeError;
pub use store::Collector;
pub use store::DataPoint;
pub use store::Store;
pub use store::StoreError;
