//! A DNS wire-protocol codec: building query packets and decoding response
//! packets, byte for byte, as RFC 1035 (with the EDNS0 extension) lays them
//! out. The codec performs no I/O of its own: callers hand it a byte buffer
//! and receive structured records back, or hand it a request and receive the
//! bytes to send.

pub mod cursor;
pub mod record;
pub mod strings;
pub mod types;
pub mod wire;

pub use crate::types::{Answer, ErrorCode, Flags, QClass, Query, Request, Response, TypeInt, UnknownQtype};
pub use crate::wire::{find_qtype_number, Wire, WireError};
