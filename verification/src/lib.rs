//! A single-file, paged, fixed-record ledger store.
//!
//! The store keeps a homogeneous sequence of fixed-size records in a byte
//! image laid out as a ledger header followed by slotted pages.  Each record
//! gets a dense, monotonically increasing row id, and can be read back or
//! rewritten in place by that id.  All multi-byte integers in the image are
//! little-endian.
//!
//! The modules mirror the layers of the format: [`utils`] holds flag masks
//! and the error taxonomy, [`header`] the page and ledger headers with their
//! byte codecs, [`page`] the slotted page and the record schema contract,
//! [`ledger`] the store over the whole image, and [`schema`] two concrete
//! record types.

pub mod b64;
pub mod codec;
pub mod header;
pub mod ledger;
pub mod page;
pub mod schema;
pub mod utils;
