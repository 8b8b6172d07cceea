//! Enrichment of website origins with network-identity metadata: hostname and
//! registrable-domain parsing, DNS answer assembly, ASN attribution with
//! deduplication, TLS certificate issuer extraction, and the per-record
//! pipeline that composes them under a bounded-concurrency dispatcher.

pub mod asn;
pub mod dns;
pub mod domain;
pub mod ip;
pub mod model;
pub mod pipeline;
pub mod tls;
pub mod utils;

pub use ip::IpAddress;
pub use model::IpInfo;
