//! The value types that cross the codec's boundary: requests built by a
//! caller, and responses produced by decoding a buffer.

use vstd::prelude::*;

use crate::record::{Record, OPT};

verus! {

/// The numeric code of a resource-record type, as assigned by the IANA.
pub type TypeInt = u16;

/// An outbound DNS query packet, before serialisation.
#[derive(Debug, Clone, PartialEq, Eq)]
pub struct Request {
    /// A number echoed by the server, pairing a response with its query.
    pub transaction_id: u16,
    /// The header flags to send.
    pub flags: Flags,
    /// The questions being asked.
    pub queries: Vec<Query>,
    /// An optional EDNS0 pseudo-record, sent in the additional section.
    pub additional: Option<OPT>,
}

/// A decoded DNS response packet. Decoding is atomic: either every section
/// decodes, or the whole packet is rejected with an error.
#[derive(Debug, Clone, PartialEq, Eq)]
pub struct Response {
    /// The transaction number echoed from the query.
    pub transaction_id: u16,
    /// The decoded header flags.
    pub flags: Flags,
    /// The questions the server echoed back.
    pub queries: Vec<Query>,
    /// The records of the answer section.
    pub answers: Vec<Answer>,
    /// The records of the authority section.
    pub authorities: Vec<Answer>,
    /// The records of the additional section.
    pub additionals: Vec<Answer>,
}

/// One question: a domain name, a record type, and a class.
#[derive(Debug, Clone, PartialEq, Eq)]
pub struct Query {
    /// The domain name being asked about, in textual form such as
    /// `"example.com"`.
    pub qname: String,
    /// The record type being asked for.
    pub qtype: TypeInt,
    /// The class being asked about.
    pub qclass: QClass,
}

/// One entry of a response section: either an ordinary record, or the EDNS0
/// pseudo-record, whose class and time-to-live fields carry other meanings
/// and which is therefore kept as a distinct shape.
#[derive(Debug, Clone, PartialEq, Eq)]
pub enum Answer {
    /// An ordinary record.
    Standard {
        /// The domain name the record belongs to.
        qname: String,
        /// The class of the record.
        qclass: QClass,
        /// How many seconds the record may be cached for.
        ttl: u32,
        /// The typed payload.
        record: Record,
    },
    /// An EDNS0 pseudo-record.
    Pseudo {
        /// The domain name the pseudo-record was sent under.
        qname: String,
        /// The EDNS0 fields.
        opt: OPT,
    },
}

/// A query class. The Internet class is the one in ordinary use; the numeric
/// value of an unrecognised class is preserved verbatim.
#[derive(Debug, Clone, Copy, PartialEq, Eq, Structural)]
pub enum QClass {
    /// The Internet.
    IN,
    /// The Chaos class.
    CH,
    /// The Hesiod class.
    HS,
    /// Any other class number, kept as it came.
    Other(u16),
}

/// A record type number that no decoder of this library claims; the number
/// is preserved verbatim so that unknown types round-trip.
#[derive(Debug, Clone, Copy, PartialEq, Eq, Structural)]
pub enum UnknownQtype {
    /// The numeric type code, kept as it came.
    Other(u16),
}

impl UnknownQtype {
    /// Wraps a type number that no known decoder matched.
    pub fn from_u16(value: u16) -> (r: UnknownQtype)
        ensures
            r == UnknownQtype::Other(value),
    {
        UnknownQtype::Other(value)
    }

    /// The numeric type code, back out.
    pub fn to_u16(self) -> (r: u16)
        ensures
            self == UnknownQtype::Other(r),
    {
        match self {
            UnknownQtype::Other(value) => value,
        }
    }
}

/// The bit-packed flags word of the DNS header, unpacked into fields. The
/// reserved bit is always written as zero and ignored on read. Only the
/// standard-query opcode is fully modelled: the opcode is always encoded as
/// zero, so other opcodes do not round-trip through `to_u16`. The response
/// code is encoded in the low four bits; a code above fifteen belongs to
/// the EDNS0 extended field and is encoded as zero.
#[derive(Debug, Clone, Copy, PartialEq, Eq, Structural)]
pub struct Flags {
    /// Whether this packet is a response (set) or a query (clear).
    pub response: bool,
    /// The kind of query. Only the standard query, zero, is modelled.
    pub opcode: u8,
    /// Whether the responding server holds the zone being asked about.
    pub authoritative: bool,
    /// Whether this response was cut short by the transport.
    pub truncated: bool,
    /// Whether the server is asked to answer recursively.
    pub recursion_desired: bool,
    /// Whether the server offers recursive service.
    pub recursion_available: bool,
    /// Whether the data has been verified (a DNSSEC flag).
    pub authentic_data: bool,
    /// Whether DNSSEC verification was declined (a DNSSEC flag).
    pub checking_disabled: bool,
    /// The response code; `None` is the code zero, no error.
    pub error_code: Option<ErrorCode>,
}

/// A non-zero response code (RCODE) of the DNS header.
#[derive(Debug, Clone, Copy, PartialEq, Eq, Structural)]
pub enum ErrorCode {
    /// Code 1: the server could not parse the query.
    FormatError,
    /// Code 2: the server failed internally.
    ServerFailure,
    /// Code 3: the domain name does not exist.
    NXDomain,
    /// Code 4: the server does not implement the kind of query.
    NotImplemented,
    /// Code 5: the server refused to answer.
    QueryRefused,
    /// Code 16: the server does not speak this EDNS0 version.
    BadVersion,
    /// Any other code, kept as it came.
    Other(u16),
}

} // verus!
