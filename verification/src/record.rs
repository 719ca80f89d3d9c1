//! The resource-record types this codec can decode, one struct per type,
//! and the dispatch from a numeric type code to the matching decoder.

use vstd::prelude::*;

use crate::cursor::{be16, be16_bytes, be32, write_u16, Cursor};
use crate::strings::{chars_of, name_at, wire_err_matches};
use crate::types::UnknownQtype;
use crate::wire::{Wire, WireError};

verus! {

/// An IPv4 address: four octets, most significant first.
#[derive(Debug, Clone, Copy, PartialEq, Eq, Structural)]
pub struct Ipv4Address {
    /// The first octet.
    pub a: u8,
    /// The second octet.
    pub b: u8,
    /// The third octet.
    pub c: u8,
    /// The fourth octet.
    pub d: u8,
}

impl Ipv4Address {
    /// The address `a.b.c.d`.
    pub fn new(a: u8, b: u8, c: u8, d: u8) -> (r: Ipv4Address)
        ensures
            r == (Ipv4Address { a, b, c, d }),
    {
        Ipv4Address { a, b, c, d }
    }
}

/// An IPv6 address: sixteen octets, most significant first.
#[derive(Debug, Clone, PartialEq, Eq)]
pub struct Ipv6Address {
    /// The sixteen octets of the address.
    pub octets: Vec<u8>,
}

/// An **A** record: an IPv4 address.
#[derive(Debug, Clone, Copy, PartialEq, Eq, Structural)]
pub struct A {
    /// The IPv4 address contained in the record.
    pub address: Ipv4Address,
}

/// An **AAAA** record: an IPv6 address.
#[derive(Debug, Clone, PartialEq, Eq)]
pub struct AAAA {
    /// The IPv6 address contained in the record.
    pub address: Ipv6Address,
}

/// A **CAA** record: which certificate authorities may issue certificates
/// for a domain.
#[derive(Debug, Clone, PartialEq, Eq)]
pub struct CAA {
    /// Whether issuers must understand the tag before proceeding.
    pub critical: bool,
    /// The property tag, kept as the bytes received.
    pub tag: Vec<u8>,
    /// The property value, kept as the bytes received.
    pub value: Vec<u8>,
}

/// A **CNAME** record: the canonical name of an alias.
#[derive(Debug, Clone, PartialEq, Eq)]
pub struct CNAME {
    /// The domain name the alias points at.
    pub domain: String,
}

/// An **MX** record: a mail exchange for a domain.
#[derive(Debug, Clone, PartialEq, Eq)]
pub struct MX {
    /// The precedence of this exchange; lower values are preferred.
    pub preference: u16,
    /// The domain name of the mail server.
    pub exchange: String,
}

/// An **NS** record: an authoritative name server for a domain.
#[derive(Debug, Clone, PartialEq, Eq)]
pub struct NS {
    /// The domain name of the name server.
    pub nameserver: String,
}

/// An **OPT** pseudo-record, carrying EDNS0 metadata rather than answer
/// data; it repurposes the class and time-to-live fields of the wire layout.
#[derive(Debug, Clone, PartialEq, Eq)]
pub struct OPT {
    /// The largest UDP packet the sender is willing to receive.
    pub udp_payload_size: u16,
    /// The upper eight bits of the extended response code.
    pub higher_bits: u8,
    /// The EDNS0 version in use; zero at present.
    pub edns0_version: u8,
    /// The extended flags word.
    pub flags: u16,
    /// Any EDNS0 options, kept as the bytes received.
    pub data: Vec<u8>,
}

/// A **PTR** record: the domain name an address points back at.
#[derive(Debug, Clone, PartialEq, Eq)]
pub struct PTR {
    /// The domain name pointed at.
    pub cname: String,
}

/// An **SOA** record: the start of a zone of authority.
#[derive(Debug, Clone, PartialEq, Eq)]
pub struct SOA {
    /// The primary name server of the zone.
    pub mname: String,
    /// The mailbox of the person responsible, as a domain name.
    pub rname: String,
    /// The version number of the zone.
    pub serial: u32,
    /// How many seconds secondaries wait between refreshes.
    pub refresh_interval: u32,
    /// How many seconds secondaries wait after a failed refresh.
    pub retry_interval: u32,
    /// After how many seconds without contact the zone data expires.
    pub expire_limit: u32,
    /// The least time-to-live of any record of the zone.
    pub minimum_ttl: u32,
}

/// An **SRV** record: where a named service is offered.
#[derive(Debug, Clone, PartialEq, Eq)]
pub struct SRV {
    /// The precedence of this server; lower values are preferred.
    pub priority: u16,
    /// The share of traffic this server should get among equals.
    pub weight: u16,
    /// The port the service listens on.
    pub port: u16,
    /// The domain name of the host offering the service.
    pub target: String,
}

/// A **TXT** record: free-form data attached to a name. The payload is kept
/// verbatim, as the bytes received.
#[derive(Debug, Clone, PartialEq, Eq)]
pub struct TXT {
    /// The payload bytes.
    pub message: Vec<u8>,
}

/// The payload of a decoded record: one variant per supported type, plus a
/// catch-all that keeps the bytes of a type this library does not know.
#[derive(Debug, Clone, PartialEq, Eq)]
pub enum Record {
    /// An IPv4 address record.
    A(A),
    /// An IPv6 address record.
    AAAA(AAAA),
    /// A certificate-authority authorisation record.
    CAA(CAA),
    /// A canonical-name record.
    CNAME(CNAME),
    /// A mail-exchange record.
    MX(MX),
    /// A name-server record.
    NS(NS),
    /// A pointer record.
    PTR(PTR),
    /// A start-of-authority record.
    SOA(SOA),
    /// A service-location record.
    SRV(SRV),
    /// A free-form text record.
    TXT(TXT),
    /// A record of a type this library has no decoder for.
    Other {
        /// The numeric type code that was received.
        type_number: UnknownQtype,
        /// The undecoded payload, exactly as received.
        bytes: Vec<u8>,
    },
}


/// What decoding an **A** record leaves behind: the result `r` and the
/// cursor position `end`, given the buffer, the position the read started
/// at, and the declared payload length.
pub open spec fn a_read_spec(buf: Seq<u8>, pos: int, len: u16, r: Result<A, WireError>, end: int) -> bool {
    &&& pos + len <= buf.len() ==> end == pos + len && (if len == 4 {
        r == Ok::<A, WireError>(
            A {
                address: Ipv4Address {
                    a: buf[pos],
                    b: buf[pos + 1],
                    c: buf[pos + 2],
                    d: buf[pos + 3],
                },
            },
        )
    } else {
        r == Err::<A, WireError>(WireError::WrongLength { expected: 4, got: len })
    })
    &&& pos + len > buf.len() ==> r == Err::<A, WireError>(WireError::IO) && end == pos
}

/// What decoding an **AAAA** record leaves behind.
pub open spec fn aaaa_read_spec(buf: Seq<u8>, pos: int, len: u16, r: Result<AAAA, WireError>, end: int) -> bool {
    &&& pos + len <= buf.len() ==> end == pos + len && (if len == 16 {
        r matches Ok(rec) && rec.address.octets@ == buf.subrange(pos, pos + 16)
    } else {
        r == Err::<AAAA, WireError>(WireError::WrongLength { expected: 16, got: len })
    })
    &&& pos + len > buf.len() ==> r == Err::<AAAA, WireError>(WireError::IO) && end == pos
}

/// What decoding a **CAA** record leaves behind.
pub open spec fn caa_read_spec(buf: Seq<u8>, pos: int, len: u16, r: Result<CAA, WireError>, end: int) -> bool {
    if pos + 2 > buf.len() {
        r == Err::<CAA, WireError>(WireError::IO)
    } else {
        let tl = buf[pos + 1] as int;
        if tl + 2 > len {
            r == Err::<CAA, WireError>(
                WireError::WrongLength { expected: (buf[pos + 1] + 2) as u16, got: len },
            )
        } else if pos + 2 + tl > buf.len() || pos + len > buf.len() {
            r == Err::<CAA, WireError>(WireError::IO)
        } else {
            r matches Ok(rec) && rec.critical == (buf[pos] >= 128) && rec.tag@ == buf.subrange(
                pos + 2,
                pos + 2 + tl,
            ) && rec.value@ == buf.subrange(pos + 2 + tl, pos + len) && end == pos + len
        }
    }
}

/// What decoding a **CNAME** record leaves behind. The declared length does
/// not enter: the record is one name, whose walk ends where the name does.
pub open spec fn cname_read_spec(buf: Seq<u8>, pos: int, len: u16, r: Result<CNAME, WireError>, end: int) -> bool {
    match name_at(buf, pos) {
        Ok(nm) => r matches Ok(rec) && rec.domain@ == chars_of(nm.0) && end == nm.1,
        Err(e) => r matches Err(w) && wire_err_matches(w, e),
    }
}

/// What decoding an **MX** record leaves behind.
pub open spec fn mx_read_spec(buf: Seq<u8>, pos: int, len: u16, r: Result<MX, WireError>, end: int) -> bool {
    if pos + 2 <= buf.len() {
        match name_at(buf, pos + 2) {
            Ok(nm) => r matches Ok(rec) && rec.preference == be16(buf[pos], buf[pos + 1])
                && rec.exchange@ == chars_of(nm.0) && end == nm.1,
            Err(e) => r matches Err(w) && wire_err_matches(w, e),
        }
    } else {
        r == Err::<MX, WireError>(WireError::IO)
    }
}

/// What decoding an **NS** record leaves behind.
pub open spec fn ns_read_spec(buf: Seq<u8>, pos: int, len: u16, r: Result<NS, WireError>, end: int) -> bool {
    match name_at(buf, pos) {
        Ok(nm) => r matches Ok(rec) && rec.nameserver@ == chars_of(nm.0) && end == nm.1,
        Err(e) => r matches Err(w) && wire_err_matches(w, e),
    }
}

/// What decoding an **OPT** pseudo-record leaves behind; it reads its own
/// payload length, so no declared length comes in.
pub open spec fn opt_read_spec(buf: Seq<u8>, pos: int, r: Result<OPT, WireError>, end: int) -> bool {
    if pos + 8 > buf.len() {
        r == Err::<OPT, WireError>(WireError::IO)
    } else {
        let dl = be16(buf[pos + 6], buf[pos + 7]) as int;
        if pos + 8 + dl > buf.len() {
            r == Err::<OPT, WireError>(WireError::IO)
        } else {
            r matches Ok(o) && o.udp_payload_size == be16(buf[pos], buf[pos + 1]) && o.higher_bits
                == buf[pos + 2] && o.edns0_version == buf[pos + 3] && o.flags == be16(
                buf[pos + 4],
                buf[pos + 5],
            ) && o.data@ == buf.subrange(pos + 8, pos + 8 + dl) && end == pos + 8 + dl
        }
    }
}

/// What decoding a **PTR** record leaves behind.
pub open spec fn ptr_read_spec(buf: Seq<u8>, pos: int, len: u16, r: Result<PTR, WireError>, end: int) -> bool {
    match name_at(buf, pos) {
        Ok(nm) => r matches Ok(rec) && rec.cname@ == chars_of(nm.0) && end == nm.1,
        Err(e) => r matches Err(w) && wire_err_matches(w, e),
    }
}

/// What decoding an **SOA** record leaves behind.
pub open spec fn soa_read_spec(buf: Seq<u8>, pos: int, len: u16, r: Result<SOA, WireError>, end: int) -> bool {
    match name_at(buf, pos) {
        Ok(nm1) => match name_at(buf, nm1.1) {
            Ok(nm2) => if nm2.1 + 20 <= buf.len() {
                r matches Ok(rec) && rec.mname@ == chars_of(nm1.0) && rec.rname@ == chars_of(
                    nm2.0,
                ) && rec.serial == be32(
                    buf[nm2.1],
                    buf[nm2.1 + 1],
                    buf[nm2.1 + 2],
                    buf[nm2.1 + 3],
                ) && rec.refresh_interval == be32(
                    buf[nm2.1 + 4],
                    buf[nm2.1 + 5],
                    buf[nm2.1 + 6],
                    buf[nm2.1 + 7],
                ) && rec.retry_interval == be32(
                    buf[nm2.1 + 8],
                    buf[nm2.1 + 9],
                    buf[nm2.1 + 10],
                    buf[nm2.1 + 11],
                ) && rec.expire_limit == be32(
                    buf[nm2.1 + 12],
                    buf[nm2.1 + 13],
                    buf[nm2.1 + 14],
                    buf[nm2.1 + 15],
                ) && rec.minimum_ttl == be32(
                    buf[nm2.1 + 16],
                    buf[nm2.1 + 17],
                    buf[nm2.1 + 18],
                    buf[nm2.1 + 19],
                ) && end == nm2.1 + 20
            } else {
                r == Err::<SOA, WireError>(WireError::IO)
            },
            Err(e) => r matches Err(w) && wire_err_matches(w, e),
        },
        Err(e) => r matches Err(w) && wire_err_matches(w, e),
    }
}

/// What decoding an **SRV** record leaves behind.
pub open spec fn srv_read_spec(buf: Seq<u8>, pos: int, len: u16, r: Result<SRV, WireError>, end: int) -> bool {
    if pos + 6 <= buf.len() {
        match name_at(buf, pos + 6) {
            Ok(nm) => r matches Ok(rec) && rec.priority == be16(buf[pos], buf[pos + 1])
                && rec.weight == be16(buf[pos + 2], buf[pos + 3]) && rec.port == be16(
                buf[pos + 4],
                buf[pos + 5],
            ) && rec.target@ == chars_of(nm.0) && end == nm.1,
            Err(e) => r matches Err(w) && wire_err_matches(w, e),
        }
    } else {
        r == Err::<SRV, WireError>(WireError::IO)
    }
}

/// What decoding a **TXT** record leaves behind.
pub open spec fn txt_read_spec(buf: Seq<u8>, pos: int, len: u16, r: Result<TXT, WireError>, end: int) -> bool {
    &&& pos + len <= buf.len() ==> (r matches Ok(rec) && rec.message@ == buf.subrange(
        pos,
        pos + len,
    ) && end == pos + len)
    &&& pos + len > buf.len() ==> r == Err::<TXT, WireError>(WireError::IO) && end == pos
}

impl A {
    /// The type number of **A** records.
    pub const RR_TYPE: u16 = 1;

    /// Decodes an **A** record: its payload is exactly four bytes, the
    /// octets of the address. Any other declared length is a length
    /// mismatch, found after the declared bytes were consumed.
    pub fn read(len: u16, c: &mut Cursor<'_>) -> (r: Result<A, WireError>)
        ensures
            final(c).buf@ == old(c).buf@,
            a_read_spec(old(c).buf@, old(c).pos as int, len, r, final(c).pos as int),
    {
        let bytes = c.read_bytes(len)?;
        if bytes.len() == 4 {
            Ok(A { address: Ipv4Address::new(bytes[0], bytes[1], bytes[2], bytes[3]) })
        } else {
            Err(WireError::WrongLength { expected: 4, got: len })
        }
    }
}

impl AAAA {
    /// The type number of **AAAA** records.
    pub const RR_TYPE: u16 = 28;

    /// Decodes an **AAAA** record: its payload is exactly sixteen bytes,
    /// the octets of the address.
    pub fn read(len: u16, c: &mut Cursor<'_>) -> (r: Result<AAAA, WireError>)
        ensures
            final(c).buf@ == old(c).buf@,
            aaaa_read_spec(old(c).buf@, old(c).pos as int, len, r, final(c).pos as int),
    {
        let bytes = c.read_bytes(len)?;
        if bytes.len() == 16 {
            Ok(AAAA { address: Ipv6Address { octets: bytes } })
        } else {
            Err(WireError::WrongLength { expected: 16, got: len })
        }
    }
}

impl CAA {
    /// The type number of **CAA** records.
    pub const RR_TYPE: u16 = 257;

    /// Decodes a **CAA** record: a flags byte whose top bit is the critical
    /// flag, a tag length byte, the tag, and the value in whatever room the
    /// declared length leaves for it.
    pub fn read(len: u16, c: &mut Cursor<'_>) -> (r: Result<CAA, WireError>)
        ensures
            final(c).buf@ == old(c).buf@,
            caa_read_spec(old(c).buf@, old(c).pos as int, len, r, final(c).pos as int),
    {
        let flags_byte = c.read_u8()?;
        let tag_length = c.read_u8()?;
        if (tag_length as u16) + 2 > len {
            return Err(WireError::WrongLength { expected: (tag_length as u16) + 2, got: len });
        }
        let tag = c.read_bytes(tag_length as u16)?;
        let value = c.read_bytes(len - 2 - (tag_length as u16))?;
        Ok(CAA { critical: flags_byte >= 128, tag, value })
    }
}

impl CNAME {
    /// The type number of **CNAME** records.
    pub const RR_TYPE: u16 = 5;

    /// Decodes a **CNAME** record: one domain name.
    pub fn read(_len: u16, c: &mut Cursor<'_>) -> (r: Result<CNAME, WireError>)
        ensures
            final(c).buf@ == old(c).buf@,
            cname_read_spec(old(c).buf@, old(c).pos as int, _len, r, final(c).pos as int),
    {
        let domain = c.read_labels()?;
        Ok(CNAME { domain })
    }
}

impl MX {
    /// The type number of **MX** records.
    pub const RR_TYPE: u16 = 15;

    /// Decodes an **MX** record: a sixteen-bit preference, then the domain
    /// name of the exchange.
    pub fn read(_len: u16, c: &mut Cursor<'_>) -> (r: Result<MX, WireError>)
        ensures
            final(c).buf@ == old(c).buf@,
            mx_read_spec(old(c).buf@, old(c).pos as int, _len, r, final(c).pos as int),
    {
        let preference = c.read_u16()?;
        let exchange = c.read_labels()?;
        Ok(MX { preference, exchange })
    }
}

impl NS {
    /// The type number of **NS** records.
    pub const RR_TYPE: u16 = 2;

    /// Decodes an **NS** record: one domain name.
    pub fn read(_len: u16, c: &mut Cursor<'_>) -> (r: Result<NS, WireError>)
        ensures
            final(c).buf@ == old(c).buf@,
            ns_read_spec(old(c).buf@, old(c).pos as int, _len, r, final(c).pos as int),
    {
        let nameserver = c.read_labels()?;
        Ok(NS { nameserver })
    }
}

impl OPT {
    /// The type number of **OPT** pseudo-records.
    pub const RR_TYPE: u16 = 41;

    /// Decodes an **OPT** pseudo-record. Unlike ordinary records it owns
    /// the class and time-to-live positions of the wire layout, so it reads
    /// them itself, together with its own payload length and payload.
    pub fn read(c: &mut Cursor<'_>) -> (r: Result<OPT, WireError>)
        ensures
            final(c).buf@ == old(c).buf@,
            opt_read_spec(old(c).buf@, old(c).pos as int, r, final(c).pos as int),
    {
        let udp_payload_size = c.read_u16()?;
        let higher_bits = c.read_u8()?;
        let edns0_version = c.read_u8()?;
        let flags = c.read_u16()?;
        let data_len = c.read_u16()?;
        let data = c.read_bytes(data_len)?;
        Ok(OPT { udp_payload_size, higher_bits, edns0_version, flags, data })
    }

    /// Serialises the pseudo-record, payload length included, exactly as
    /// `read` expects to find it after the type number.
    pub fn to_bytes(&self) -> (r: Vec<u8>)
        requires
            self.data@.len() <= 0xFFFF,
        ensures
            r@ == spec_opt_bytes(*self),
    {
        let mut out: Vec<u8> = Vec::new();
        write_u16(&mut out, self.udp_payload_size);
        out.push(self.higher_bits);
        out.push(self.edns0_version);
        write_u16(&mut out, self.flags);
        write_u16(&mut out, self.data.len() as u16);
        let mut i: usize = 0;
        while i < self.data.len()
            invariant
                i <= self.data@.len(),
                self.data@.len() <= 0xFFFF,
                out@ == be16_bytes(self.udp_payload_size) + seq![
                    self.higher_bits,
                    self.edns0_version,
                ] + be16_bytes(self.flags) + be16_bytes(self.data@.len() as u16) + self.data@.take(
                    i as int,
                ),
            decreases self.data@.len() - i,
        {
            let byte = self.data[i];
            out.push(byte);
            proof {
                assert(self.data@.take(i + 1) =~= self.data@.take(i as int).push(byte));
                assert(out@ =~= be16_bytes(self.udp_payload_size) + seq![
                    self.higher_bits,
                    self.edns0_version,
                ] + be16_bytes(self.flags) + be16_bytes(self.data@.len() as u16) + self.data@.take(
                    i + 1,
                ));
            }
            i = i + 1;
        }
        proof {
            assert(self.data@.take(self.data@.len() as int) =~= self.data@);
            assert(out@ =~= spec_opt_bytes(*self));
        }
        out
    }
}

/// The bytes of a serialised OPT pseudo-record, after the type number: the
/// UDP payload size in the class position, the extended-code byte, the
/// version byte, the extended flags, then the payload behind its length.
pub open spec fn spec_opt_bytes(o: OPT) -> Seq<u8> {
    be16_bytes(o.udp_payload_size) + seq![o.higher_bits, o.edns0_version] + be16_bytes(o.flags)
        + be16_bytes(o.data@.len() as u16) + o.data@
}

impl PTR {
    /// The type number of **PTR** records.
    pub const RR_TYPE: u16 = 12;

    /// Decodes a **PTR** record: one domain name.
    pub fn read(_len: u16, c: &mut Cursor<'_>) -> (r: Result<PTR, WireError>)
        ensures
            final(c).buf@ == old(c).buf@,
            ptr_read_spec(old(c).buf@, old(c).pos as int, _len, r, final(c).pos as int),
    {
        let cname = c.read_labels()?;
        Ok(PTR { cname })
    }
}

impl SOA {
    /// The type number of **SOA** records.
    pub const RR_TYPE: u16 = 6;

    /// Decodes an **SOA** record: two domain names, then five thirty-two
    /// bit counters.
    pub fn read(_len: u16, c: &mut Cursor<'_>) -> (r: Result<SOA, WireError>)
        ensures
            final(c).buf@ == old(c).buf@,
            soa_read_spec(old(c).buf@, old(c).pos as int, _len, r, final(c).pos as int),
    {
        let mname = c.read_labels()?;
        let rname = c.read_labels()?;
        let serial = c.read_u32()?;
        let refresh_interval = c.read_u32()?;
        let retry_interval = c.read_u32()?;
        let expire_limit = c.read_u32()?;
        let minimum_ttl = c.read_u32()?;
        Ok(SOA { mname, rname, serial, refresh_interval, retry_interval, expire_limit, minimum_ttl })
    }
}

impl SRV {
    /// The type number of **SRV** records.
    pub const RR_TYPE: u16 = 33;

    /// Decodes an **SRV** record: priority, weight and port, then the
    /// domain name of the host.
    pub fn read(_len: u16, c: &mut Cursor<'_>) -> (r: Result<SRV, WireError>)
        ensures
            final(c).buf@ == old(c).buf@,
            srv_read_spec(old(c).buf@, old(c).pos as int, _len, r, final(c).pos as int),
    {
        let priority = c.read_u16()?;
        let weight = c.read_u16()?;
        let port = c.read_u16()?;
        let target = c.read_labels()?;
        Ok(SRV { priority, weight, port, target })
    }
}

impl TXT {
    /// The type number of **TXT** records.
    pub const RR_TYPE: u16 = 16;

    /// Decodes a **TXT** record: the declared number of payload bytes, kept
    /// verbatim.
    pub fn read(len: u16, c: &mut Cursor<'_>) -> (r: Result<TXT, WireError>)
        ensures
            final(c).buf@ == old(c).buf@,
            txt_read_spec(old(c).buf@, old(c).pos as int, len, r, final(c).pos as int),
    {
        let message = c.read_bytes(len)?;
        Ok(TXT { message })
    }
}

impl Wire for A {
    fn read(len: u16, c: &mut Cursor<'_>) -> Result<Self, WireError> {
        A::read(len, c)
    }
}

impl Wire for AAAA {
    fn read(len: u16, c: &mut Cursor<'_>) -> Result<Self, WireError> {
        AAAA::read(len, c)
    }
}

impl Wire for CAA {
    fn read(len: u16, c: &mut Cursor<'_>) -> Result<Self, WireError> {
        CAA::read(len, c)
    }
}

impl Wire for CNAME {
    fn read(len: u16, c: &mut Cursor<'_>) -> Result<Self, WireError> {
        CNAME::read(len, c)
    }
}

impl Wire for MX {
    fn read(len: u16, c: &mut Cursor<'_>) -> Result<Self, WireError> {
        MX::read(len, c)
    }
}

impl Wire for NS {
    fn read(len: u16, c: &mut Cursor<'_>) -> Result<Self, WireError> {
        NS::read(len, c)
    }
}

impl Wire for PTR {
    fn read(len: u16, c: &mut Cursor<'_>) -> Result<Self, WireError> {
        PTR::read(len, c)
    }
}

impl Wire for SOA {
    fn read(len: u16, c: &mut Cursor<'_>) -> Result<Self, WireError> {
        SOA::read(len, c)
    }
}

impl Wire for SRV {
    fn read(len: u16, c: &mut Cursor<'_>) -> Result<Self, WireError> {
        SRV::read(len, c)
    }
}

impl Wire for TXT {
    fn read(len: u16, c: &mut Cursor<'_>) -> Result<Self, WireError> {
        TXT::read(len, c)
    }
}

/// Whether a type number has a decoder of its own. The OPT pseudo-record is
/// not counted: it never goes through the ordinary dispatch.
pub open spec fn spec_known_qtype(qtype: u16) -> bool {
    qtype == 1 || qtype == 2 || qtype == 5 || qtype == 6 || qtype == 12 || qtype == 15 || qtype
        == 16 || qtype == 28 || qtype == 33 || qtype == 257
}

/// What the record dispatch leaves behind: for each known type number, the
/// matching decoder's own outcome, the result wrapped in that decoder's
/// variant and any error passed on unchanged; for an unknown type number,
/// exactly `len` raw bytes kept as an `Other` record.
pub open spec fn record_read_spec(
    buf: Seq<u8>,
    pos: int,
    qtype: u16,
    len: u16,
    r: Result<Record, WireError>,
    end: int,
) -> bool {
    &&& !spec_known_qtype(qtype) ==> if pos + len <= buf.len() {
        r matches Ok(rec) && rec matches Record::Other { type_number, bytes } && type_number
            == UnknownQtype::Other(qtype) && bytes@ == buf.subrange(pos, pos + len) && bytes@.len()
            == len && end == pos + len
    } else {
        r == Err::<Record, WireError>(WireError::IO) && end == pos
    }
    &&& qtype == 1 ==> match r {
        Ok(rec) => rec matches Record::A(a) && a_read_spec(buf, pos, len, Ok(a), end),
        Err(e) => a_read_spec(buf, pos, len, Err(e), end),
    }
    &&& qtype == 28 ==> match r {
        Ok(rec) => rec matches Record::AAAA(a) && aaaa_read_spec(buf, pos, len, Ok(a), end),
        Err(e) => aaaa_read_spec(buf, pos, len, Err(e), end),
    }
    &&& qtype == 257 ==> match r {
        Ok(rec) => rec matches Record::CAA(a) && caa_read_spec(buf, pos, len, Ok(a), end),
        Err(e) => caa_read_spec(buf, pos, len, Err(e), end),
    }
    &&& qtype == 5 ==> match r {
        Ok(rec) => rec matches Record::CNAME(a) && cname_read_spec(buf, pos, len, Ok(a), end),
        Err(e) => cname_read_spec(buf, pos, len, Err(e), end),
    }
    &&& qtype == 15 ==> match r {
        Ok(rec) => rec matches Record::MX(a) && mx_read_spec(buf, pos, len, Ok(a), end),
        Err(e) => mx_read_spec(buf, pos, len, Err(e), end),
    }
    &&& qtype == 2 ==> match r {
        Ok(rec) => rec matches Record::NS(a) && ns_read_spec(buf, pos, len, Ok(a), end),
        Err(e) => ns_read_spec(buf, pos, len, Err(e), end),
    }
    &&& qtype == 12 ==> match r {
        Ok(rec) => rec matches Record::PTR(a) && ptr_read_spec(buf, pos, len, Ok(a), end),
        Err(e) => ptr_read_spec(buf, pos, len, Err(e), end),
    }
    &&& qtype == 6 ==> match r {
        Ok(rec) => rec matches Record::SOA(a) && soa_read_spec(buf, pos, len, Ok(a), end),
        Err(e) => soa_read_spec(buf, pos, len, Err(e), end),
    }
    &&& qtype == 33 ==> match r {
        Ok(rec) => rec matches Record::SRV(a) && srv_read_spec(buf, pos, len, Ok(a), end),
        Err(e) => srv_read_spec(buf, pos, len, Err(e), end),
    }
    &&& qtype == 16 ==> match r {
        Ok(rec) => rec matches Record::TXT(a) && txt_read_spec(buf, pos, len, Ok(a), end),
        Err(e) => txt_read_spec(buf, pos, len, Err(e), end),
    }
}

impl Record {
    /// Decodes a record's payload: the decoder matching the type number, in
    /// a fixed registry of known types, reads it; a type number with no
    /// decoder never fails the decode, but keeps exactly `len` raw bytes as
    /// an `Other` record. The declared length bounds the payload of the
    /// fixed-shape and unknown types; a decoder whose payload is a domain
    /// name follows the name walk, which compression may take elsewhere in
    /// the message.
    pub fn from_bytes(qtype: u16, len: u16, c: &mut Cursor<'_>) -> (r: Result<Record, WireError>)
        ensures
            final(c).buf@ == old(c).buf@,
            record_read_spec(old(c).buf@, old(c).pos as int, qtype, len, r, final(c).pos as int),
    {
        match qtype {
            1 => match A::read(len, c) {
                Ok(rec) => Ok(Record::A(rec)),
                Err(e) => Err(e),
            },
            28 => match AAAA::read(len, c) {
                Ok(rec) => Ok(Record::AAAA(rec)),
                Err(e) => Err(e),
            },
            257 => match CAA::read(len, c) {
                Ok(rec) => Ok(Record::CAA(rec)),
                Err(e) => Err(e),
            },
            5 => match CNAME::read(len, c) {
                Ok(rec) => Ok(Record::CNAME(rec)),
                Err(e) => Err(e),
            },
            15 => match MX::read(len, c) {
                Ok(rec) => Ok(Record::MX(rec)),
                Err(e) => Err(e),
            },
            2 => match NS::read(len, c) {
                Ok(rec) => Ok(Record::NS(rec)),
                Err(e) => Err(e),
            },
            12 => match PTR::read(len, c) {
                Ok(rec) => Ok(Record::PTR(rec)),
                Err(e) => Err(e),
            },
            6 => match SOA::read(len, c) {
                Ok(rec) => Ok(Record::SOA(rec)),
                Err(e) => Err(e),
            },
            33 => match SRV::read(len, c) {
                Ok(rec) => Ok(Record::SRV(rec)),
                Err(e) => Err(e),
            },
            16 => match TXT::read(len, c) {
                Ok(rec) => Ok(Record::TXT(rec)),
                Err(e) => Err(e),
            },
            _ => {
                let bytes = c.read_bytes(len)?;
                Ok(Record::Other { type_number: UnknownQtype::from_u16(qtype), bytes })
            },
        }
    }
}

} // verus!
