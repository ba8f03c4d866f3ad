//! Decision logic of a Kerberos V5 key distribution centre and of the
//! Kerberos GSS-API mechanism, verified with Verus.

pub mod acl;
pub mod ad;
pub mod audit;
pub mod bytes;
pub mod der;
pub mod error;
pub mod flags;
pub mod gss;
pub mod issue;
pub mod kdb;
pub mod kdb_dump;
pub mod listen;
pub mod lookaside;
pub mod mkey;
pub mod msg;
pub mod name;
pub mod num;
pub mod osa;
pub mod outside;
pub mod pac;
pub mod persist;
pub mod plugins;
pub mod realm;
pub mod slots;
pub mod store;
pub mod text;
