//! The Kerberos V5 mechanism of the GSS-API, and SPNEGO.

pub mod buffers;
pub mod context;
pub mod deleg;
pub mod error;
pub mod establish;
pub mod export;
pub mod iov;
pub mod message;
pub mod mic;
pub mod negotiate;
pub mod oid;
pub mod rep;
pub mod round_trip;
pub mod spnego;
pub mod token_io;
pub mod wrap;
