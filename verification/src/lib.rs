//! A client-side engine for fetching large remote files over HTTP with
//! resumability, partial-range negotiation, throughput shaping and
//! on-disk state persistence.
//!
//! The engine's logic is verified: the sidecar metadata codec, the naming
//! and conflict resolver, the resource prober's decisions, the bandwidth
//! limiter and the transfer loop's step functions all carry contracts,
//! and the cross-cutting guarantees (completion means full, start-once,
//! pause round trip, resume correctness, the bandwidth cap) are stated as
//! proof functions beside them. Network and file I/O stay outside: a thin
//! driver hands the library plain values — header pairs, directory
//! listings, chunk lengths, clock readings — and carries out the writes,
//! requests and sleeps the library's step functions call for.

pub mod errors;
pub mod file2dl;
pub mod limiter;
pub mod strutil;
pub mod tmp;
pub mod url;
pub mod utils;

pub use errors::DirectoryError;
pub use errors::FileDownloadError;
pub use errors::UrlError;
pub use file2dl::File2Dl;
pub use tmp::MetaData;
pub use url::Url;
