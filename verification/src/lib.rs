//! Inventory of a host's background-service surface.
//!
//! The library walks two discovery paths — declared service descriptors and a
//! raw executable sweep — extracts security-relevant attributes of each
//! program (entitlements, linked libraries, imported symbols, inter-process
//! endpoints), and normalizes them into a deduplicated relational store that
//! a read-only query facade serves.

pub mod capabilities;
pub mod descriptor;
mod outside;
pub mod pattern;
pub mod query;
pub mod scan;
pub mod sniffer;
pub mod store;
pub mod text;
pub mod utils;
pub mod value;

pub use sniffer::FileType;
pub use sniffer::is_macho_magic;
pub use sniffer::spec_is_macho_magic;
pub use utils::is_valid_db;
pub use utils::generate_sqlite_filename;
