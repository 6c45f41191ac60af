//! Read path of a sector-linked game asset store, and the update protocol
//! that streams its archives to clients.

pub mod be;
pub mod cache;
pub mod checksum_table;
pub mod codec;
pub mod container;
pub mod error;
pub mod filestore;
pub mod index;
pub mod reference_table;
pub mod sector;
pub mod update;
pub mod xtea;

pub use error::StoreError;
