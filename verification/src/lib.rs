//! Encoder for DNS query messages in the RFC 1035 wire format.
//!
//! A [`DnsQuery`] is a twelve-byte [`DnsHeader`] followed by one
//! [`DnsQuestion`]; a question is a [`Domain`] name, a record [`Type`] and a
//! [`Class`]. Every one of them implements [`Serialize`], which appends the
//! value's wire form to a byte buffer and whose contract says, byte for byte,
//! what is appended.

pub mod error;
pub mod header;
pub mod labels;
pub mod name;
pub mod query;
pub mod question;
pub mod sink;
pub mod wire;

pub use error::EncodingError;
pub use header::DnsHeader;
pub use name::Domain;
pub use query::DnsQuery;
pub use question::{Class, DnsQuestion, Type};
pub use wire::Serialize;
