//! The wire codec proper: header flags, the uniform record-decoding
//! contract, the record-name lookup, and the errors a decode can end in.

use vstd::prelude::*;
use vstd::string::StrSliceExecFns;

use crate::cursor::{be16, be16_bytes, be32, lemma_be16_roundtrip, write_all, write_u16, Cursor};
use crate::record::{opt_read_spec, record_read_spec, spec_opt_bytes, Record, OPT};
use crate::strings::{chars_of, enc_name, is_valid_name, lemma_chars_of_text_bytes, lemma_name_roundtrip, lemma_pointer_cycle, lemma_pointer_out_of_bounds, name_at, text_bytes, valid_name, wire_err_matches, write_labels, NameErr};
use crate::types::{Answer, ErrorCode, Flags, QClass, Query, Request, Response, TypeInt};

verus! {

/// Something that can go wrong decoding a packet. A malformed packet is
/// rejected wholesale with the first of these that applies; there is no
/// partial recovery.
#[derive(Debug, Clone, PartialEq, Eq)]
pub enum WireError {
    /// The buffer ran out before a required field could be read.
    IO,
    /// A record whose shape fixes its size was declared with a different
    /// size.
    WrongLength {
        /// The size the record's shape requires.
        expected: u16,
        /// The size that was actually declared.
        got: u16,
    },
    /// A compressed name's pointer chain revisited an offset, or grew past
    /// any reasonable length. Carries the chain of offsets examined.
    TooMuchRecursion(Vec<u16>),
    /// A compression pointer referenced an offset outside the packet.
    /// Carries the invalid offset.
    OutOfBounds(u16),
}

/// The uniform contract of a record decoder: read the record's payload,
/// whose declared length is `len`, from the cursor, which travels over the
/// complete message. The fixed-shape decoders consume at most `len` bytes;
/// one whose payload is a domain name follows the name walk, which
/// compression may take elsewhere in the message.
pub trait Wire: Sized {
    /// Decodes a record of this type whose declared payload length is
    /// `len`.
    fn read(len: u16, c: &mut Cursor<'_>) -> Result<Self, WireError>;
}

/// Whether two string slices hold the same characters.
fn str_eq(a: &str, b: &str) -> (r: bool)
    ensures
        r == (a@ == b@),
{
    let a_len = a.unicode_len();
    let b_len = b.unicode_len();
    if a_len != b_len {
        return false;
    }
    let mut i: usize = 0;
    while i < a_len
        invariant
            i <= a_len,
            a_len == a@.len(),
            a_len == b@.len(),
            forall|j: int| 0 <= j < i ==> a@[j] == b@[j],
        decreases a_len - i,
    {
        if a.get_char(i) != b.get_char(i) {
            return false;
        }
        i = i + 1;
    }
    proof {
        assert(a@ =~= b@);
    }
    true
}

/// The type number that `find_qtype_number` assigns to each record name.
pub open spec fn spec_find_qtype_number(name: Seq<char>) -> Option<TypeInt> {
    if name == "A"@ {
        Some(1u16)
    } else if name == "AAAA"@ {
        Some(28u16)
    } else if name == "CAA"@ {
        Some(257u16)
    } else if name == "CNAME"@ {
        Some(5u16)
    } else if name == "MX"@ {
        Some(15u16)
    } else if name == "NS"@ {
        Some(2u16)
    } else if name == "PTR"@ {
        Some(12u16)
    } else if name == "SOA"@ {
        Some(6u16)
    } else if name == "SRV"@ {
        Some(33u16)
    } else if name == "TXT"@ {
        Some(16u16)
    } else {
        None
    }
}

/// Determines the record type number to signify a record with the given
/// name; an unrecognised name finds nothing. The OPT pseudo-record is not
/// listed: it is handled apart from ordinary records.
pub fn find_qtype_number(record_type: &str) -> (r: Option<TypeInt>)
    ensures
        r == spec_find_qtype_number(record_type@),
{
    if str_eq(record_type, "A") {
        Some(1)
    } else if str_eq(record_type, "AAAA") {
        Some(28)
    } else if str_eq(record_type, "CAA") {
        Some(257)
    } else if str_eq(record_type, "CNAME") {
        Some(5)
    } else if str_eq(record_type, "MX") {
        Some(15)
    } else if str_eq(record_type, "NS") {
        Some(2)
    } else if str_eq(record_type, "PTR") {
        Some(12)
    } else if str_eq(record_type, "SOA") {
        Some(6)
    } else if str_eq(record_type, "SRV") {
        Some(33)
    } else if str_eq(record_type, "TXT") {
        Some(16)
    } else {
        None
    }
}

impl QClass {
    /// The class that the given class number names.
    pub fn from_u16(value: u16) -> (r: QClass)
        ensures
            r == spec_qclass_from_u16(value),
    {
        match value {
            0x0001 => QClass::IN,
            0x0003 => QClass::CH,
            0x0004 => QClass::HS,
            _ => QClass::Other(value),
        }
    }

    /// The class number of this class.
    pub fn to_u16(self) -> (r: u16)
        ensures
            r == spec_qclass_to_u16(self),
    {
        match self {
            QClass::IN => 0x0001,
            QClass::CH => 0x0003,
            QClass::HS => 0x0004,
            QClass::Other(value) => value,
        }
    }
}

/// The class that each class number names.
pub open spec fn spec_qclass_from_u16(value: u16) -> QClass {
    if value == 0x0001 {
        QClass::IN
    } else if value == 0x0003 {
        QClass::CH
    } else if value == 0x0004 {
        QClass::HS
    } else {
        QClass::Other(value)
    }
}

/// The class number of each class.
pub open spec fn spec_qclass_to_u16(q: QClass) -> u16 {
    match q {
        QClass::IN => 0x0001,
        QClass::CH => 0x0003,
        QClass::HS => 0x0004,
        QClass::Other(value) => value,
    }
}

/// The four-bit field that `Flags::to_u16` packs the response code into:
/// codes one to fifteen as themselves, no error as zero. BadVersion and any
/// other code above fifteen do not fit the header field — they belong to
/// the EDNS0 extended code — and are packed as zero.
pub open spec fn spec_error_code_to_bits(ec: Option<ErrorCode>) -> u16 {
    match ec {
        None => 0u16,
        Some(e) => match e {
            ErrorCode::FormatError => 1u16,
            ErrorCode::ServerFailure => 2u16,
            ErrorCode::NXDomain => 3u16,
            ErrorCode::NotImplemented => 4u16,
            ErrorCode::QueryRefused => 5u16,
            ErrorCode::BadVersion => 0u16,
            ErrorCode::Other(n) => if n <= 15 {
                n
            } else {
                0u16
            },
        },
    }
}

/// Whether a response code survives the trip through the four-bit header
/// field: no code, the five named codes below six, and `Other` codes six to
/// fifteen do; BadVersion and codes above fifteen are packed as zero.
pub open spec fn rcode_reencodes(ec: Option<ErrorCode>) -> bool {
    spec_error_code_from_bits(spec_error_code_to_bits(ec)) == ec
}

/// The flags word that `Flags::to_u16` packs: one fixed bit per boolean
/// flag, and the response code in the low four bits. The opcode is always
/// encoded as zero.
pub open spec fn spec_flags_to_u16(f: Flags) -> u16 {
    ((if f.response {
        0x8000int
    } else {
        0int
    }) + (if f.authoritative {
        0x0400int
    } else {
        0int
    }) + (if f.truncated {
        0x0200int
    } else {
        0int
    }) + (if f.recursion_desired {
        0x0100int
    } else {
        0int
    }) + (if f.recursion_available {
        0x0080int
    } else {
        0int
    }) + (if f.authentic_data {
        0x0020int
    } else {
        0int
    }) + (if f.checking_disabled {
        0x0010int
    } else {
        0int
    }) + (spec_error_code_to_bits(f.error_code) as int)) as u16
}

/// The response code that the low four bits of a flags word name.
pub open spec fn spec_error_code_from_bits(bits: u16) -> Option<ErrorCode> {
    if bits == 0 {
        None
    } else if bits == 1 {
        Some(ErrorCode::FormatError)
    } else if bits == 2 {
        Some(ErrorCode::ServerFailure)
    } else if bits == 3 {
        Some(ErrorCode::NXDomain)
    } else if bits == 4 {
        Some(ErrorCode::NotImplemented)
    } else if bits == 5 {
        Some(ErrorCode::QueryRefused)
    } else if bits == 16 {
        Some(ErrorCode::BadVersion)
    } else {
        Some(ErrorCode::Other(bits))
    }
}

/// The flags that `Flags::from_u16` unpacks from a flags word. The reserved
/// bit is ignored, and the opcode is read as zero.
pub open spec fn spec_flags_from_u16(bits: u16) -> Flags {
    Flags {
        response: bits & 0x8000 == 0x8000,
        opcode: 0,
        authoritative: bits & 0x0400 == 0x0400,
        truncated: bits & 0x0200 == 0x0200,
        recursion_desired: bits & 0x0100 == 0x0100,
        recursion_available: bits & 0x0080 == 0x0080,
        authentic_data: bits & 0x0020 == 0x0020,
        checking_disabled: bits & 0x0010 == 0x0010,
        error_code: spec_error_code_from_bits(bits & 0x000F),
    }
}

impl Flags {
    /// The set of flags that represents an ordinary query packet: a
    /// standard query with recursion desired.
    pub fn query() -> (r: Flags)
        ensures
            r == spec_flags_from_u16(0x0100),
    {
        Self::from_u16(0x0100)
    }

    /// Packs the flags into the two-byte header word: the boolean flags at
    /// their fixed bits, the opcode as zero, and the response code in the
    /// low four bits — a code above fifteen does not fit there and is
    /// written as zero.
    pub fn to_u16(self) -> (bits: u16)
        ensures
            bits == spec_flags_to_u16(self),
    {
        let mut bits: u16 = 0;
        if self.response {
            bits = bits + 0x8000;
        }
        if self.authoritative {
            bits = bits + 0x0400;
        }
        if self.truncated {
            bits = bits + 0x0200;
        }
        if self.recursion_desired {
            bits = bits + 0x0100;
        }
        if self.recursion_available {
            bits = bits + 0x0080;
        }
        if self.authentic_data {
            bits = bits + 0x0020;
        }
        if self.checking_disabled {
            bits = bits + 0x0010;
        }
        bits = bits + (match self.error_code {
            None => 0,
            Some(e) => match e {
                ErrorCode::FormatError => 1,
                ErrorCode::ServerFailure => 2,
                ErrorCode::NXDomain => 3,
                ErrorCode::NotImplemented => 4,
                ErrorCode::QueryRefused => 5,
                ErrorCode::BadVersion => 0,
                ErrorCode::Other(n) => if n <= 15 {
                    n
                } else {
                    0
                },
            },
        });
        bits
    }

    /// Unpacks the two-byte header word into flags.
    pub fn from_u16(bits: u16) -> (r: Flags)
        ensures
            r == spec_flags_from_u16(bits),
    {
        Flags {
            response: bits & 0x8000 == 0x8000,
            opcode: 0,
            authoritative: bits & 0x0400 == 0x0400,
            truncated: bits & 0x0200 == 0x0200,
            recursion_desired: bits & 0x0100 == 0x0100,
            recursion_available: bits & 0x0080 == 0x0080,
            authentic_data: bits & 0x0020 == 0x0020,
            checking_disabled: bits & 0x0010 == 0x0010,
            error_code: ErrorCode::from_bits(bits & 0x000F),
        }
    }
}

impl ErrorCode {
    /// The response code that the given bits name; reads the low four bits
    /// of the flags word, or the extended code of an EDNS0 record.
    pub fn from_bits(bits: u16) -> (r: Option<ErrorCode>)
        ensures
            r == spec_error_code_from_bits(bits),
    {
        match bits {
            0 => None,
            1 => Some(ErrorCode::FormatError),
            2 => Some(ErrorCode::ServerFailure),
            3 => Some(ErrorCode::NXDomain),
            4 => Some(ErrorCode::NotImplemented),
            5 => Some(ErrorCode::QueryRefused),
            16 => Some(ErrorCode::BadVersion),
            n => Some(ErrorCode::Other(n)),
        }
    }
}

/// Whether a query can be written to the wire: its name is ASCII text whose
/// dot-separated segments all fit in labels.
pub open spec fn wf_query(q: Query) -> bool {
    vstd::utf8::is_ascii_chars(q.qname@) && valid_name(text_bytes(q.qname@))
}

/// Whether a request can be written to the wire: the query count fits the
/// count field, every query is writable, and any EDNS0 payload fits its
/// length field.
pub open spec fn wf_request(req: Request) -> bool {
    req.queries@.len() <= 0xFFFF && (forall|i: int|
        0 <= i < req.queries@.len() ==> wf_query(#[trigger] req.queries@[i])) && match req
        .additional {
        Some(o) => o.data@.len() <= 0xFFFF,
        None => true,
    }
}

/// The bytes of one serialised question.
pub open spec fn enc_query(q: Query) -> Seq<u8> {
    enc_name(text_bytes(q.qname@)) + be16_bytes(q.qtype) + be16_bytes(spec_qclass_to_u16(q.qclass))
}

/// The bytes of a list of serialised questions, in order.
pub open spec fn enc_queries(qs: Seq<Query>) -> Seq<u8>
    decreases qs.len(),
{
    if qs.len() == 0 {
        Seq::empty()
    } else {
        enc_query(qs[0]) + enc_queries(qs.drop_first())
    }
}

/// The bytes of a whole serialised request: the header, the questions, and
/// the EDNS0 pseudo-record if one is attached, under an empty name.
pub open spec fn enc_request(req: Request) -> Seq<u8> {
    be16_bytes(req.transaction_id) + be16_bytes(spec_flags_to_u16(req.flags)) + be16_bytes(
        req.queries@.len() as u16,
    ) + be16_bytes(0) + be16_bytes(0) + be16_bytes(
        match req.additional {
            Some(_) => 1,
            None => 0,
        },
    ) + enc_queries(req.queries@) + match req.additional {
        Some(o) => seq![0u8] + be16_bytes(41) + spec_opt_bytes(o),
        None => Seq::<u8>::empty(),
    }
}

/// One more question at the end extends the serialisation by that
/// question's bytes.
proof fn lemma_enc_queries_snoc(qs: Seq<Query>, i: int)
    requires
        0 <= i < qs.len(),
    ensures
        enc_queries(qs.take(i + 1)) == enc_queries(qs.take(i)) + enc_query(qs[i]),
    decreases i,
{
    if i == 0 {
        assert(qs.take(1)[0] == qs[0]);
        assert(qs.take(1).drop_first() =~= Seq::<Query>::empty());
        assert(qs.take(0) =~= Seq::<Query>::empty());
        assert(enc_queries(qs.take(1)) =~= enc_queries(qs.take(0)) + enc_query(qs[0]));
    } else {
        let t = qs.drop_first();
        lemma_enc_queries_snoc(t, i - 1);
        assert(qs.take(i + 1)[0] == qs[0]);
        assert(qs.take(i)[0] == qs[0]);
        assert(qs.take(i + 1).drop_first() =~= t.take(i));
        assert(qs.take(i).drop_first() =~= t.take(i - 1));
        assert(t[i - 1] == qs[i]);
        assert(enc_queries(qs.take(i + 1)) =~= enc_queries(qs.take(i)) + enc_query(qs[i]));
    }
}

impl Request {
    /// Serialises this request: the header with the query count and an
    /// additional-record count of one exactly when an EDNS0 record is
    /// attached, then each question, then that record.
    pub fn to_bytes(&self) -> (r: Vec<u8>)
        requires
            wf_request(*self),
        ensures
            r@ == enc_request(*self),
    {
        let mut bytes: Vec<u8> = Vec::new();
        write_u16(&mut bytes, self.transaction_id);
        write_u16(&mut bytes, self.flags.to_u16());
        write_u16(&mut bytes, self.queries.len() as u16);
        write_u16(&mut bytes, 0);
        write_u16(&mut bytes, 0);
        write_u16(&mut bytes, if self.additional.is_some() {
            1
        } else {
            0
        });
        let ghost header = bytes@;
        let mut i: usize = 0;
        proof {
            assert(self.queries@.take(0) =~= Seq::<Query>::empty());
        }
        while i < self.queries.len()
            invariant
                wf_request(*self),
                i <= self.queries@.len(),
                bytes@ == header + enc_queries(self.queries@.take(i as int)),
            decreases self.queries@.len() - i,
        {
            let query = &self.queries[i];
            write_labels(&mut bytes, query.qname.as_str());
            write_u16(&mut bytes, query.qtype);
            write_u16(&mut bytes, query.qclass.to_u16());
            proof {
                lemma_enc_queries_snoc(self.queries@, i as int);
                assert(bytes@ =~= header + enc_queries(self.queries@.take(i + 1)));
            }
            i = i + 1;
        }
        proof {
            assert(self.queries@.take(self.queries@.len() as int) =~= self.queries@);
        }
        if let Some(opt) = &self.additional {
            bytes.push(0);
            write_u16(&mut bytes, 41);
            let opt_bytes = opt.to_bytes();
            write_all(&mut bytes, &opt_bytes);
        }
        proof {
            assert(bytes@ =~= enc_request(*self));
        }
        bytes
    }

    /// The EDNS0 record sent with requests: it advertises a UDP payload
    /// size of 512 bytes, no extended flags, and no options.
    pub fn additional_record() -> (r: OPT)
        ensures
            r.udp_payload_size == 512,
            r.higher_bits == 0,
            r.edns0_version == 0,
            r.flags == 0,
            r.data@ == Seq::<u8>::empty(),
    {
        OPT {
            udp_payload_size: 512,
            higher_bits: 0,
            edns0_version: 0,
            flags: 0,
            data: Vec::new(),
        }
    }

    /// Whether this request can be serialised: the executable test of what
    /// `to_bytes` requires, for callers to run before serialising.
    pub fn is_wf(&self) -> (r: bool)
        ensures
            r == wf_request(*self),
    {
        if self.queries.len() > 0xFFFF {
            return false;
        }
        let mut i: usize = 0;
        while i < self.queries.len()
            invariant
                i <= self.queries@.len(),
                self.queries@.len() <= 0xFFFF,
                forall|j: int| 0 <= j < i ==> wf_query(#[trigger] self.queries@[j]),
            decreases self.queries@.len() - i,
        {
            if !is_valid_name(self.queries[i].qname.as_str()) {
                proof {
                    assert(!wf_query(self.queries@[i as int]));
                }
                return false;
            }
            i = i + 1;
        }
        match &self.additional {
            Some(opt) => opt.data.len() <= 0xFFFF,
            None => true,
        }
    }
}

impl Query {
    /// Reads the fixed fields of a question whose name was already read.
    fn from_bytes(qname: String, c: &mut Cursor<'_>) -> (r: Result<Query, WireError>)
        ensures
            final(c).buf@ == old(c).buf@,
            old(c).pos + 4 <= old(c).buf@.len() ==> (r matches Ok(q) && q.qname == qname
                && q.qtype == be16(old(c).buf@[old(c).pos as int], old(c).buf@[old(c).pos + 1])
                && q.qclass == spec_qclass_from_u16(
                be16(old(c).buf@[old(c).pos + 2], old(c).buf@[old(c).pos + 3]),
            ) && final(c).pos == old(c).pos + 4),
            old(c).pos + 4 > old(c).buf@.len() ==> r == Err::<Query, WireError>(WireError::IO),
    {
        let qtype = c.read_u16()?;
        let qclass = QClass::from_u16(c.read_u16()?);
        Ok(Query { qtype, qclass, qname })
    }
}

/// What reading one section entry leaves behind, after its name `qname`
/// was already read: a type number of 41 hands the rest to the OPT decoder
/// and yields a pseudo-record; any other type number reads class,
/// time-to-live and payload length, then dispatches on the type number —
/// with every decoder outcome, and the cursor's end position, passed on.
pub open spec fn answer_read_spec(
    buf: Seq<u8>,
    pos: int,
    qname: Seq<char>,
    r: Result<Answer, WireError>,
    end: int,
) -> bool {
    &&& pos + 2 > buf.len() ==> r == Err::<Answer, WireError>(WireError::IO)
    &&& pos + 2 <= buf.len() ==> ({
        let qt = be16(buf[pos], buf[pos + 1]);
        if qt == 41 {
            match r {
                Ok(a) => a matches Answer::Pseudo { qname: qn, opt } && qn@ == qname
                    && opt_read_spec(buf, pos + 2, Ok(opt), end),
                Err(e) => opt_read_spec(buf, pos + 2, Err(e), end),
            }
        } else {
            &&& pos + 10 > buf.len() ==> r == Err::<Answer, WireError>(WireError::IO)
            &&& pos + 10 <= buf.len() ==> ({
                let rdlen = be16(buf[pos + 8], buf[pos + 9]);
                match r {
                    Ok(a) => a matches Answer::Standard { qname: qn, qclass, ttl, record } && qn@
                        == qname && qclass == spec_qclass_from_u16(be16(buf[pos + 2], buf[pos + 3]))
                        && ttl == be32(buf[pos + 4], buf[pos + 5], buf[pos + 6], buf[pos + 7])
                        && record_read_spec(buf, pos + 10, qt, rdlen, Ok(record), end),
                    Err(e) => record_read_spec(buf, pos + 10, qt, rdlen, Err(e), end),
                }
            })
        }
    })
}

impl Answer {
    /// Reads one section entry whose name was already read: the EDNS0
    /// pseudo-record where the type number says so, an ordinary record with
    /// class, time-to-live and length otherwise.
    fn from_bytes(qname: String, c: &mut Cursor<'_>) -> (r: Result<Answer, WireError>)
        ensures
            final(c).buf@ == old(c).buf@,
            answer_read_spec(old(c).buf@, old(c).pos as int, qname@, r, final(c).pos as int),
    {
        let qtype = c.read_u16()?;
        if qtype == 41 {
            let opt = OPT::read(c)?;
            Ok(Answer::Pseudo { qname, opt })
        } else {
            let qclass = QClass::from_u16(c.read_u16()?);
            let ttl = c.read_u32()?;
            let len = c.read_u16()?;
            let record = Record::from_bytes(qtype, len, c)?;
            Ok(Answer::Standard { qclass, qname, record, ttl })
        }
    }
}

/// The question section as a total function over the buffer: `n` questions
/// read in turn from `pos`, each a name followed by its type and class
/// numbers, yielding for each the name's bytes and the two numbers, and
/// finally the offset at which the next section starts.
pub open spec fn parse_queries(buf: Seq<u8>, pos: int, n: int) -> Result<
    (Seq<(Seq<u8>, u16, u16)>, int),
    NameErr,
>
    decreases n,
{
    if n <= 0 {
        Ok((Seq::empty(), pos))
    } else {
        match name_at(buf, pos) {
            Err(e) => Err(e),
            Ok(nm) => if nm.1 + 4 <= buf.len() {
                match parse_queries(buf, nm.1 + 4, n - 1) {
                    Err(e) => Err(e),
                    Ok(rest) => Ok(
                        (
                            seq![
                                (
                                    nm.0,
                                    be16(buf[nm.1], buf[nm.1 + 1]),
                                    be16(buf[nm.1 + 2], buf[nm.1 + 3]),
                                ),
                            ] + rest.0,
                            rest.1,
                        ),
                    ),
                }
            } else {
                Err(NameErr::Io)
            },
        }
    }
}

/// One more readable question at the end of a parsed run extends the run
/// by that question.
proof fn lemma_parse_queries_snoc(
    buf: Seq<u8>,
    pos: int,
    n: int,
    views: Seq<(Seq<u8>, u16, u16)>,
    p: int,
)
    requires
        n >= 0,
        parse_queries(buf, pos, n) == Ok::<(Seq<(Seq<u8>, u16, u16)>, int), NameErr>((views, p)),
        name_at(buf, p) is Ok,
        (name_at(buf, p)->Ok_0).1 + 4 <= buf.len(),
    ensures
        ({
            let nm = name_at(buf, p)->Ok_0;
            parse_queries(buf, pos, n + 1) == Ok::<(Seq<(Seq<u8>, u16, u16)>, int), NameErr>(
                (
                    views + seq![
                        (nm.0, be16(buf[nm.1], buf[nm.1 + 1]), be16(buf[nm.1 + 2], buf[nm.1 + 3])),
                    ],
                    nm.1 + 4,
                ),
            )
        }),
    decreases n,
{
    let nm = name_at(buf, p)->Ok_0;
    let x = (nm.0, be16(buf[nm.1], buf[nm.1 + 1]), be16(buf[nm.1 + 2], buf[nm.1 + 3]));
    if n == 0 {
        assert(views =~= Seq::<(Seq<u8>, u16, u16)>::empty());
        assert(p == pos);
        assert(parse_queries(buf, nm.1 + 4, 0) == Ok::<(Seq<(Seq<u8>, u16, u16)>, int), NameErr>(
            (Seq::empty(), nm.1 + 4),
        ));
        assert(seq![x] + Seq::<(Seq<u8>, u16, u16)>::empty() =~= views + seq![x]);
    } else {
        let h = name_at(buf, pos)->Ok_0;
        let inner = parse_queries(buf, h.1 + 4, n - 1);
        assert(inner is Ok);
        let (views_in, p_in) = inner->Ok_0;
        assert(views == seq![
            (h.0, be16(buf[h.1], buf[h.1 + 1]), be16(buf[h.1 + 2], buf[h.1 + 3])),
        ] + views_in);
        assert(p_in == p);
        lemma_parse_queries_snoc(buf, h.1 + 4, n - 1, views_in, p);
        assert(seq![(h.0, be16(buf[h.1], buf[h.1 + 1]), be16(buf[h.1 + 2], buf[h.1 + 3]))] + (
        views_in + seq![x]) =~= views + seq![x]);
    }
}

/// The name bytes, type number and class number of each query, in order:
/// what parsing its serialisation should find.
pub open spec fn query_views(qs: Seq<Query>) -> Seq<(Seq<u8>, u16, u16)> {
    qs.map_values(|q: Query| (text_bytes(q.qname@), q.qtype, spec_qclass_to_u16(q.qclass)))
}

/// Parsing the serialisation of a list of questions finds exactly those
/// questions, and stops just past their bytes.
proof fn lemma_parse_of_enc_queries(buf: Seq<u8>, pos: int, qs: Seq<Query>)
    requires
        forall|i: int| 0 <= i < qs.len() ==> wf_query(#[trigger] qs[i]),
        0 <= pos,
        pos + enc_queries(qs).len() <= buf.len(),
        buf.subrange(pos, pos + enc_queries(qs).len()) == enc_queries(qs),
    ensures
        parse_queries(buf, pos, qs.len() as int) == Ok::<(Seq<(Seq<u8>, u16, u16)>, int), NameErr>(
            (query_views(qs), pos + enc_queries(qs).len()),
        ),
    decreases qs.len(),
{
    if qs.len() == 0 {
        assert(query_views(qs) =~= Seq::<(Seq<u8>, u16, u16)>::empty());
    } else {
        let q0 = qs[0];
        let rest = qs.drop_first();
        assert(wf_query(qs[0]));
        let nb = text_bytes(q0.qname@);
        let e_name = enc_name(nb);
        let e_q = enc_query(q0);
        let e_rest = enc_queries(rest);
        let enc = enc_queries(qs);
        assert(enc == e_q + e_rest);
        let wq = be16_bytes(q0.qtype);
        let wc = be16_bytes(spec_qclass_to_u16(q0.qclass));
        assert(e_q == e_name + wq + wc);
        assert(buf.subrange(pos, pos + e_name.len()) =~= e_name) by {
            assert forall|i: int| 0 <= i < e_name.len() implies buf.subrange(
                pos,
                pos + e_name.len(),
            )[i] == e_name[i] by {
                assert(enc[i] == e_name[i]);
                assert(buf.subrange(pos, pos + enc.len())[i] == enc[i]);
            }
        }
        lemma_name_roundtrip(buf, pos, nb);
        let p1 = pos + e_name.len();
        assert(name_at(buf, pos) == Ok::<(Seq<u8>, int), NameErr>((nb, p1)));
        assert(buf[p1] == wq[0] && buf[p1 + 1] == wq[1] && buf[p1 + 2] == wc[0] && buf[p1 + 3]
            == wc[1]) by {
            assert(enc[e_name.len() as int] == wq[0]);
            assert(enc[e_name.len() as int + 1] == wq[1]);
            assert(enc[e_name.len() as int + 2] == wc[0]);
            assert(enc[e_name.len() as int + 3] == wc[1]);
            assert(buf.subrange(pos, pos + enc.len())[e_name.len() as int] == enc[e_name.len() as int]);
            assert(buf.subrange(pos, pos + enc.len())[e_name.len() as int + 1] == enc[e_name.len() as int + 1]);
            assert(buf.subrange(pos, pos + enc.len())[e_name.len() as int + 2] == enc[e_name.len() as int + 2]);
            assert(buf.subrange(pos, pos + enc.len())[e_name.len() as int + 3] == enc[e_name.len() as int + 3]);
        }
        lemma_be16_roundtrip(q0.qtype);
        lemma_be16_roundtrip(spec_qclass_to_u16(q0.qclass));
        let p2 = p1 + 4;
        assert(buf.subrange(p2, p2 + e_rest.len()) =~= e_rest) by {
            assert forall|i: int| 0 <= i < e_rest.len() implies buf.subrange(
                p2,
                p2 + e_rest.len(),
            )[i] == e_rest[i] by {
                assert(enc[e_q.len() as int + i] == e_rest[i]);
                assert(buf.subrange(pos, pos + enc.len())[e_q.len() as int + i] == enc[e_q.len() as int + i]);
            }
        }
        assert(forall|i: int| 0 <= i < rest.len() ==> wf_query(#[trigger] rest[i])) by {
            assert(forall|i: int| 0 <= i < rest.len() ==> rest[i] == qs[i + 1]);
        }
        lemma_parse_of_enc_queries(buf, p2, rest);
        assert(query_views(qs) =~= seq![(nb, q0.qtype, spec_qclass_to_u16(q0.qclass))]
            + query_views(rest));
        assert(parse_queries(buf, pos, qs.len() as int) == Ok::<
            (Seq<(Seq<u8>, u16, u16)>, int),
            NameErr,
        >((query_views(qs), pos + enc.len())));
    }
}

/// Whether a class survives the trip through its class number: the three
/// named classes keep their own numbers, so an unrecognised number equal to
/// one of them decodes to the named class instead of `Other`.
pub open spec fn canonical_qclass(q: QClass) -> bool {
    match q {
        QClass::Other(value) => value != 1 && value != 3 && value != 4,
        _ => true,
    }
}

/// Law (request round-trip, question list): parsing the question section
/// of a serialised well-formed request finds every query unchanged — its
/// name, its type number, and its class. Together with the contract of
/// `Response::from_bytes`, whose query section is exactly this parse, a
/// successful decode of the serialised bytes returns the query list
/// unchanged. A class written as `Other` with the number of a named class
/// is excluded: its number decodes to the named class.
pub proof fn lemma_request_queries_roundtrip(req: Request)
    requires
        wf_request(req),
        forall|i: int|
            0 <= i < req.queries@.len() ==> canonical_qclass(#[trigger] req.queries@[i].qclass),
    ensures
        ({
            let b = enc_request(req);
            parse_queries(b, 12, req.queries@.len() as int) matches Ok(pq) && pq.0.len()
                == req.queries@.len() && (forall|i: int|
                0 <= i < req.queries@.len() ==> chars_of(#[trigger] pq.0[i].0)
                    == req.queries@[i].qname@ && pq.0[i].1 == req.queries@[i].qtype
                    && spec_qclass_from_u16(pq.0[i].2) == req.queries@[i].qclass)
        }),
{
    let b = enc_request(req);
    let qs = req.queries@;
    let enc = enc_queries(qs);
    let h6 = be16_bytes(req.transaction_id) + be16_bytes(spec_flags_to_u16(req.flags))
        + be16_bytes(qs.len() as u16) + be16_bytes(0) + be16_bytes(0) + be16_bytes(
        match req.additional {
            Some(_) => 1u16,
            None => 0u16,
        },
    );
    let tail = match req.additional {
        Some(o) => seq![0u8] + be16_bytes(41) + spec_opt_bytes(o),
        None => Seq::<u8>::empty(),
    };
    assert(h6.len() == 12);
    assert(b == h6 + enc + tail);
    assert(12 + enc.len() <= b.len());
    assert(b.subrange(12, 12 + enc.len() as int) =~= enc) by {
        assert forall|i: int| 0 <= i < enc.len() implies b.subrange(12, 12 + enc.len() as int)[i]
            == enc[i] by {
            assert((h6 + enc)[12 + i] == enc[i]);
            assert(b[12 + i] == (h6 + enc)[12 + i]);
        }
    }
    lemma_parse_of_enc_queries(b, 12, qs);
    assert forall|i: int| 0 <= i < qs.len() implies chars_of(#[trigger] query_views(qs)[i].0)
        == qs[i].qname@ && spec_qclass_from_u16(query_views(qs)[i].2) == qs[i].qclass by {
        assert(wf_query(qs[i]));
        lemma_chars_of_text_bytes(qs[i].qname@);
        assert(canonical_qclass(qs[i].qclass));
    }
}

/// Where a run of questions parses as a whole, each step of reading it
/// also goes through: the name at the current offset reads, and its fixed
/// fields fit.
proof fn lemma_parse_queries_split(buf: Seq<u8>, pos: int, i: int, n: int)
    requires
        0 <= i < n,
        parse_queries(buf, pos, n) is Ok,
        parse_queries(buf, pos, i) is Ok,
    ensures
        ({
            let p = parse_queries(buf, pos, i)->Ok_0.1;
            name_at(buf, p) is Ok && (name_at(buf, p)->Ok_0).1 + 4 <= buf.len()
        }),
    decreases i,
{
    if i == 0 {
    } else {
        let h = name_at(buf, pos)->Ok_0;
        lemma_parse_queries_split(buf, h.1 + 4, i - 1, n - 1);
    }
}

/// Whether a buffer has the exact shape that `Response::from_bytes`
/// decodes without error: a full header announcing empty answer and
/// authority sections, a question section that parses, and afterwards
/// either nothing announced or one whole EDNS0 pseudo-record under the
/// empty name — the shape of a serialised request.
/// The offset at which the question section of the buffer ends.
pub open spec fn queries_end(buf: Seq<u8>) -> int {
    parse_queries(buf, 12, be16(buf[4], buf[5]) as int)->Ok_0.1
}

pub open spec fn decodes_cleanly(buf: Seq<u8>) -> bool {
    buf.len() >= 12 && be16(buf[6], buf[7]) == 0 && be16(buf[8], buf[9]) == 0 && parse_queries(
        buf,
        12,
        be16(buf[4], buf[5]) as int,
    ) is Ok && ({
        let p = queries_end(buf);
        if be16(buf[10], buf[11]) == 0 {
            true
        } else {
            be16(buf[10], buf[11]) == 1 && 0 <= p && p + 11 <= buf.len() && buf[p] == 0 && be16(
                buf[p + 1],
                buf[p + 2],
            ) == 41 && p + 11 + be16(buf[p + 9], buf[p + 10]) <= buf.len()
        }
    })
}

/// What one whole section entry at `pos` is: its name, then the fields
/// and payload that `answer_read_spec` describes, ending at `end`.
pub open spec fn entry_spec(buf: Seq<u8>, pos: int, a: Answer, end: int) -> bool {
    match name_at(buf, pos) {
        Ok(nm) => answer_read_spec(buf, nm.1, chars_of(nm.0), Ok(a), end),
        Err(_) => false,
    }
}

/// Whether `entries` are exactly the section that starts at `pos` and ends
/// at `end`: each entry parsed from where the one before it stopped, in
/// buffer order.
pub open spec fn section_spec(buf: Seq<u8>, pos: int, entries: Seq<Answer>, end: int) -> bool
    decreases entries.len(),
{
    if entries.len() == 0 {
        end == pos
    } else {
        exists|mid: int|
            #[trigger] entry_spec(buf, pos, entries[0], mid) && section_spec(
                buf,
                mid,
                entries.drop_first(),
                end,
            )
    }
}

/// One more whole entry at the end of a parsed section extends the section
/// by that entry.
proof fn lemma_section_snoc(
    buf: Seq<u8>,
    pos: int,
    entries: Seq<Answer>,
    p: int,
    a: Answer,
    end: int,
)
    requires
        section_spec(buf, pos, entries, p),
        entry_spec(buf, p, a, end),
    ensures
        section_spec(buf, pos, entries.push(a), end),
    decreases entries.len(),
{
    let pushed = entries.push(a);
    if entries.len() == 0 {
        assert(p == pos);
        assert(pushed[0] == a);
        assert(pushed.drop_first() =~= Seq::<Answer>::empty());
        assert(section_spec(buf, end, pushed.drop_first(), end));
        assert(entry_spec(buf, pos, pushed[0], end) && section_spec(
            buf,
            end,
            pushed.drop_first(),
            end,
        ));
    } else {
        assert(exists|mid: int|
            #[trigger] entry_spec(buf, pos, entries[0], mid) && section_spec(
                buf,
                mid,
                entries.drop_first(),
                p,
            ));
        let mid = choose|mid: int|
            entry_spec(buf, pos, entries[0], mid) && section_spec(
                buf,
                mid,
                entries.drop_first(),
                p,
            );
        lemma_section_snoc(buf, mid, entries.drop_first(), p, a, end);
        assert(pushed[0] == entries[0]);
        assert(pushed.drop_first() =~= entries.drop_first().push(a));
        assert(entry_spec(buf, pos, pushed[0], mid) && section_spec(
            buf,
            mid,
            pushed.drop_first(),
            end,
        ));
    }
}

/// Where a run of questions parses up to its step `i` and that step then
/// fails — an unreadable name, or no room for the fixed fields — the whole
/// run fails with that step's error.
proof fn lemma_parse_queries_prefix_err(buf: Seq<u8>, pos: int, i: int, n: int, e: NameErr)
    requires
        0 <= i < n,
        parse_queries(buf, pos, i) is Ok,
        ({
            let p = parse_queries(buf, pos, i)->Ok_0.1;
            match name_at(buf, p) {
                Err(e0) => e == e0,
                Ok(nm) => nm.1 + 4 > buf.len() && e == NameErr::Io,
            }
        }),
    ensures
        parse_queries(buf, pos, n) == Err::<(Seq<(Seq<u8>, u16, u16)>, int), NameErr>(e),
    decreases i,
{
    if i == 0 {
    } else {
        let h = name_at(buf, pos)->Ok_0;
        lemma_parse_queries_prefix_err(buf, h.1 + 4, i - 1, n - 1, e);
    }
}

impl Response {
    /// Decodes a whole response packet: the header, then as many entries of
    /// each section as its count announces. Any failure anywhere rejects
    /// the packet; a response is never partially decoded, and each returned
    /// section holds exactly as many entries as the header announced.
    pub fn from_bytes(bytes: &[u8]) -> (r: Result<Response, WireError>)
        ensures
            bytes@.len() < 12 ==> r == Err::<Response, WireError>(WireError::IO),
            r matches Ok(resp) ==> bytes@.len() >= 12 && resp.transaction_id == be16(
                bytes@[0],
                bytes@[1],
            ) && resp.flags == spec_flags_from_u16(be16(bytes@[2], bytes@[3]))
                && resp.queries@.len() == be16(bytes@[4], bytes@[5]) && resp.answers@.len()
                == be16(bytes@[6], bytes@[7]) && resp.authorities@.len() == be16(
                bytes@[8],
                bytes@[9],
            ) && resp.additionals@.len() == be16(bytes@[10], bytes@[11]),
            r matches Ok(resp) ==> (parse_queries(bytes@, 12, resp.queries@.len() as int) matches Ok(
                pq,
            ) && pq.0.len() == resp.queries@.len() && forall|j: int|
                0 <= j < resp.queries@.len() ==> (#[trigger] resp.queries@[j]).qname@ == chars_of(
                    pq.0[j].0,
                ) && resp.queries@[j].qtype == pq.0[j].1 && resp.queries@[j].qclass
                    == spec_qclass_from_u16(pq.0[j].2)),
            decodes_cleanly(bytes@) ==> r is Ok,
            bytes@.len() >= 12 ==> (parse_queries(bytes@, 12, be16(bytes@[4], bytes@[5]) as int)
                matches Err(e) ==> (r matches Err(w) && wire_err_matches(w, e))),
            r matches Ok(resp) ==> (exists|p1: int, p2: int, p3: int|
                #![trigger section_spec(bytes@, queries_end(bytes@), resp.answers@, p1), section_spec(bytes@, p1, resp.authorities@, p2), section_spec(bytes@, p2, resp.additionals@, p3)]
                section_spec(bytes@, queries_end(bytes@), resp.answers@, p1) && section_spec(
                    bytes@,
                    p1,
                    resp.authorities@,
                    p2,
                ) && section_spec(bytes@, p2, resp.additionals@, p3)),
    {
        let mut c = Cursor::new(bytes);
        let transaction_id = c.read_u16()?;
        let flags = Flags::from_u16(c.read_u16()?);
        let query_count = c.read_u16()?;
        let answer_count = c.read_u16()?;
        let authority_count = c.read_u16()?;
        let additional_count = c.read_u16()?;
        let mut queries: Vec<Query> = Vec::new();
        let mut i: u16 = 0;
        while i < query_count
            invariant
                c.buf@ == bytes@,
                bytes@.len() >= 12,
                i <= query_count,
                query_count == be16(bytes@[4], bytes@[5]),
                queries@.len() == i,
                parse_queries(bytes@, 12, i as int) matches Ok(pq) && pq.0.len() == i && pq.1
                    == c.pos && forall|j: int|
                    0 <= j < i ==> (#[trigger] queries@[j]).qname@ == chars_of(pq.0[j].0)
                        && queries@[j].qtype == pq.0[j].1 && queries@[j].qclass
                        == spec_qclass_from_u16(pq.0[j].2),
            decreases query_count - i,
        {
            let ghost p_before = c.pos as int;
            let ghost pq_prev = parse_queries(bytes@, 12, i as int)->Ok_0;
            proof {
                if decodes_cleanly(bytes@) {
                    lemma_parse_queries_split(bytes@, 12, i as int, query_count as int);
                }
            }
            let qname = match c.read_labels() {
                Ok(n) => n,
                Err(w) => {
                    proof {
                        assert(name_at(bytes@, p_before) is Err);
                        let e0 = name_at(bytes@, p_before)->Err_0;
                        lemma_parse_queries_prefix_err(
                            bytes@,
                            12,
                            i as int,
                            query_count as int,
                            e0,
                        );
                    }
                    return Err(w);
                },
            };
            proof {
                assert(name_at(bytes@, p_before) is Ok);
            }
            let ghost nm = name_at(bytes@, p_before)->Ok_0;
            let query = match Query::from_bytes(qname, &mut c) {
                Ok(q) => q,
                Err(w) => {
                    proof {
                        lemma_parse_queries_prefix_err(
                            bytes@,
                            12,
                            i as int,
                            query_count as int,
                            NameErr::Io,
                        );
                    }
                    return Err(w);
                },
            };
            proof {
                lemma_parse_queries_snoc(bytes@, 12, i as int, pq_prev.0, p_before);
            }
            queries.push(query);
            i = i + 1;
        }
        let mut answers: Vec<Answer> = Vec::new();
        let ghost answers_start = c.pos as int;
        proof {
            assert(section_spec(bytes@, answers_start, answers@, c.pos as int));
        }
        let mut i: u16 = 0;
        while i < answer_count
            invariant
                c.buf@ == bytes@,
                bytes@.len() >= 12,
                i <= answer_count,
                answers@.len() == i,
                parse_queries(bytes@, 12, be16(bytes@[4], bytes@[5]) as int) is Ok,
                section_spec(bytes@, answers_start, answers@, c.pos as int),
                decodes_cleanly(bytes@) ==> answer_count == 0 && c.pos == queries_end(bytes@),
            decreases answer_count - i,
        {
            let ghost p_before = c.pos as int;
            let qname = c.read_labels()?;
            proof {
                assert(name_at(bytes@, p_before) is Ok);
            }
            let answer = Answer::from_bytes(qname, &mut c)?;
            proof {
                assert(entry_spec(bytes@, p_before, answer, c.pos as int));
                lemma_section_snoc(bytes@, answers_start, answers@, p_before, answer, c.pos as int);
            }
            answers.push(answer);
            i = i + 1;
        }
        let ghost answers_end = c.pos as int;
        let mut authorities: Vec<Answer> = Vec::new();
        proof {
            assert(section_spec(bytes@, answers_end, authorities@, c.pos as int));
        }
        let mut i: u16 = 0;
        while i < authority_count
            invariant
                c.buf@ == bytes@,
                bytes@.len() >= 12,
                i <= authority_count,
                authorities@.len() == i,
                parse_queries(bytes@, 12, be16(bytes@[4], bytes@[5]) as int) is Ok,
                section_spec(bytes@, answers_end, authorities@, c.pos as int),
                decodes_cleanly(bytes@) ==> authority_count == 0 && c.pos == queries_end(bytes@),
            decreases authority_count - i,
        {
            let ghost p_before = c.pos as int;
            let qname = c.read_labels()?;
            proof {
                assert(name_at(bytes@, p_before) is Ok);
            }
            let answer = Answer::from_bytes(qname, &mut c)?;
            proof {
                assert(entry_spec(bytes@, p_before, answer, c.pos as int));
                lemma_section_snoc(
                    bytes@,
                    answers_end,
                    authorities@,
                    p_before,
                    answer,
                    c.pos as int,
                );
            }
            authorities.push(answer);
            i = i + 1;
        }
        let ghost authorities_end = c.pos as int;
        let mut additionals: Vec<Answer> = Vec::new();
        proof {
            assert(section_spec(bytes@, authorities_end, additionals@, c.pos as int));
        }
        let mut i: u16 = 0;
        while i < additional_count
            invariant
                c.buf@ == bytes@,
                bytes@.len() >= 12,
                i <= additional_count,
                additionals@.len() == i,
                parse_queries(bytes@, 12, be16(bytes@[4], bytes@[5]) as int) is Ok,
                section_spec(bytes@, authorities_end, additionals@, c.pos as int),
                decodes_cleanly(bytes@) ==> additional_count == be16(bytes@[10], bytes@[11]),
                decodes_cleanly(bytes@) && be16(bytes@[10], bytes@[11]) == 1 ==> (i == 1 || (i == 0
                    && c.pos == queries_end(bytes@))),
            decreases additional_count - i,
        {
            let ghost p_before = c.pos as int;
            proof {
                if decodes_cleanly(bytes@) {
                    let p = queries_end(bytes@);
                    assert(name_at(bytes@, p) == Ok::<(Seq<u8>, int), NameErr>(
                        (Seq::empty(), p + 1),
                    ));
                }
            }
            let qname = c.read_labels()?;
            proof {
                assert(name_at(bytes@, p_before) is Ok);
            }
            let answer = Answer::from_bytes(qname, &mut c)?;
            proof {
                assert(entry_spec(bytes@, p_before, answer, c.pos as int));
                lemma_section_snoc(
                    bytes@,
                    authorities_end,
                    additionals@,
                    p_before,
                    answer,
                    c.pos as int,
                );
            }
            additionals.push(answer);
            i = i + 1;
        }
        let ghost additionals_end = c.pos as int;
        let result = Response { transaction_id, flags, queries, answers, authorities, additionals };
        proof {
            assert(answers_start == queries_end(bytes@));
            assert(section_spec(bytes@, queries_end(bytes@), result.answers@, answers_end));
            assert(section_spec(bytes@, answers_end, result.authorities@, authorities_end));
            assert(section_spec(bytes@, authorities_end, result.additionals@, additionals_end));
            assert(exists|p1: int, p2: int, p3: int|
                #![trigger section_spec(bytes@, queries_end(bytes@), result.answers@, p1), section_spec(bytes@, p1, result.authorities@, p2), section_spec(bytes@, p2, result.additionals@, p3)]
                section_spec(bytes@, queries_end(bytes@), result.answers@, p1) && section_spec(
                    bytes@,
                    p1,
                    result.authorities@,
                    p2,
                ) && section_spec(bytes@, p2, result.additionals@, p3));
        }
        Ok(result)
    }
}

/// Law: a packet whose question section begins with a compression pointer
/// aiming at or past the end of the buffer fails to parse with
/// `OutOfBounds`, carrying that offset — so, by the decode contract,
/// `Response::from_bytes` returns exactly that error for such a packet.
pub proof fn lemma_packet_pointer_out_of_bounds(buf: Seq<u8>)
    requires
        buf.len() >= 14,
        be16(buf[4], buf[5]) >= 1,
        buf[12] >= 0xC0,
        (buf[12] - 0xC0) * 256 + buf[13] >= buf.len(),
    ensures
        parse_queries(buf, 12, be16(buf[4], buf[5]) as int) == Err::<
            (Seq<(Seq<u8>, u16, u16)>, int),
            NameErr,
        >(NameErr::OutOfBounds((((buf[12] - 0xC0) * 256 + buf[13]) as u16))),
{
    lemma_pointer_out_of_bounds(buf, 12);
}

/// Law: a packet whose question section begins with two compression
/// pointers that aim at each other fails to parse with `TooMuchRecursion`
/// — so, by the decode contract, `Response::from_bytes` returns that
/// error, and the decode returns rather than looping.
pub proof fn lemma_packet_pointer_cycle(buf: Seq<u8>, target: int)
    requires
        buf.len() >= 14,
        be16(buf[4], buf[5]) >= 1,
        buf[12] >= 0xC0,
        (buf[12] - 0xC0) * 256 + buf[13] == target,
        0 <= target,
        target + 2 <= buf.len(),
        buf[target] >= 0xC0,
        (buf[target] - 0xC0) * 256 + buf[target + 1] == 12,
    ensures
        parse_queries(buf, 12, be16(buf[4], buf[5]) as int) matches Err(e) && e
            is TooMuchRecursion,
{
    lemma_pointer_cycle(buf, 12, target);
}

/// Law (request round-trip, decodability): the bytes of any well-formed
/// serialised request have the shape that `Response::from_bytes` decodes
/// without error. With the other round-trip laws and the contracts of
/// `Request::to_bytes` and `Response::from_bytes`, this closes the loop:
/// decoding a serialised request succeeds and returns its transaction id,
/// its flags and its query list unchanged.
pub proof fn lemma_request_decodes(req: Request)
    requires
        wf_request(req),
    ensures
        decodes_cleanly(enc_request(req)),
{
    let b = enc_request(req);
    let qs = req.queries@;
    let enc = enc_queries(qs);
    lemma_request_header_roundtrip(req);
    let h6 = be16_bytes(req.transaction_id) + be16_bytes(spec_flags_to_u16(req.flags))
        + be16_bytes(qs.len() as u16) + be16_bytes(0) + be16_bytes(0) + be16_bytes(
        match req.additional {
            Some(_) => 1u16,
            None => 0u16,
        },
    );
    let tail = match req.additional {
        Some(o) => seq![0u8] + be16_bytes(41) + spec_opt_bytes(o),
        None => Seq::<u8>::empty(),
    };
    assert(h6.len() == 12);
    assert(b == h6 + enc + tail);
    assert(b.subrange(12, 12 + enc.len() as int) =~= enc) by {
        assert forall|i: int| 0 <= i < enc.len() implies b.subrange(12, 12 + enc.len() as int)[i]
            == enc[i] by {
            assert((h6 + enc)[12 + i] == enc[i]);
            assert(b[12 + i] == (h6 + enc)[12 + i]);
        }
    }
    lemma_parse_of_enc_queries(b, 12, qs);
    assert(be16(b[4], b[5]) as int == qs.len());
    let p = queries_end(b);
    assert(p == 12 + enc.len());
    if let Some(o) = req.additional {
        assert((h6 + enc).len() == p);
        assert forall|i: int| 0 <= i < tail.len() implies b[p + i] == tail[i] by {
            assert(b[p + i] == (h6 + enc + tail)[p + i]);
        }
        let w41 = be16_bytes(41);
        let ob = spec_opt_bytes(o);
        let wd = be16_bytes(o.data@.len() as u16);
        assert(tail[0] == 0);
        assert(tail[1] == w41[0] && tail[2] == w41[1]);
        assert(ob == be16_bytes(o.udp_payload_size) + seq![o.higher_bits, o.edns0_version]
            + be16_bytes(o.flags) + wd + o.data@);
        assert(ob[6] == wd[0] && ob[7] == wd[1]);
        assert(tail[9] == ob[6] && tail[10] == ob[7]);
        lemma_be16_roundtrip(41);
        lemma_be16_roundtrip(o.data@.len() as u16);
        assert(b[p] == 0);
        assert(be16(b[p + 1], b[p + 2]) == 41);
        assert(be16(b[p + 9], b[p + 10]) == o.data@.len());
        assert(tail.len() == 11 + o.data@.len());
        assert(p + 11 + be16(b[p + 9], b[p + 10]) <= b.len());
    }
}

/// Law (request round-trip, header fields): a serialised request begins
/// with its header — the transaction id, the packed flags word, the query
/// count, zero answer and authority counts, and an additional count of one
/// exactly when an EDNS0 record is attached. With the standard-query
/// opcode and no error code, the only values the packing writes, unpacking
/// the flags word gives the flags back unchanged; together with the
/// contract of `Response::from_bytes`, a successful decode of these bytes
/// returns the transaction id, the flags, and the query count unchanged.
pub proof fn lemma_request_header_roundtrip(req: Request)
    requires
        wf_request(req),
    ensures
        enc_request(req).len() >= 12,
        be16(enc_request(req)[0], enc_request(req)[1]) == req.transaction_id,
        be16(enc_request(req)[2], enc_request(req)[3]) == spec_flags_to_u16(req.flags),
        req.flags.opcode == 0 && rcode_reencodes(req.flags.error_code) ==> spec_flags_from_u16(
            be16(enc_request(req)[2], enc_request(req)[3]),
        ) == req.flags,
        be16(enc_request(req)[4], enc_request(req)[5]) == req.queries@.len(),
        be16(enc_request(req)[6], enc_request(req)[7]) == 0,
        be16(enc_request(req)[8], enc_request(req)[9]) == 0,
        be16(enc_request(req)[10], enc_request(req)[11]) == (match req.additional {
            Some(_) => 1int,
            None => 0int,
        }),
{
    let b = enc_request(req);
    let w0 = be16_bytes(req.transaction_id);
    let w1 = be16_bytes(spec_flags_to_u16(req.flags));
    let w2 = be16_bytes(req.queries@.len() as u16);
    let w3 = be16_bytes(0);
    let w4 = be16_bytes(0);
    let w5 = be16_bytes(
        match req.additional {
            Some(_) => 1u16,
            None => 0u16,
        },
    );
    assert(b[0] == w0[0] && b[1] == w0[1]);
    assert(b[2] == w1[0] && b[3] == w1[1]);
    assert(b[4] == w2[0] && b[5] == w2[1]);
    assert(b[6] == w3[0] && b[7] == w3[1]);
    assert(b[8] == w4[0] && b[9] == w4[1]);
    assert(b[10] == w5[0] && b[11] == w5[1]);
    lemma_be16_roundtrip(req.transaction_id);
    lemma_be16_roundtrip(spec_flags_to_u16(req.flags));
    lemma_be16_roundtrip(req.queries@.len() as u16);
    lemma_be16_roundtrip(0);
    lemma_be16_roundtrip(
        match req.additional {
            Some(_) => 1u16,
            None => 0u16,
        },
    );
    if req.flags.opcode == 0 && rcode_reencodes(req.flags.error_code) {
        lemma_flags_roundtrip(req.flags);
    }
}

/// Law: packing flags into the header word and unpacking that word returns
/// the same flags, for every combination of the boolean flags and every
/// response code that fits the four-bit field and is spelt canonically. The
/// packing encodes the opcode as zero, so that field is required to hold
/// the value that zero decodes to; excluded are BadVersion and other codes
/// above fifteen, which are packed as zero, and an `Other` spelling of a
/// named code, which decodes to the named form.
pub proof fn lemma_flags_roundtrip(f: Flags)
    requires
        f.opcode == 0,
        rcode_reencodes(f.error_code),
    ensures
        spec_flags_from_u16(spec_flags_to_u16(f)) == f,
{
    let r: u16 = if f.response { 0x8000 } else { 0 };
    let a: u16 = if f.authoritative { 0x0400 } else { 0 };
    let t: u16 = if f.truncated { 0x0200 } else { 0 };
    let rd: u16 = if f.recursion_desired { 0x0100 } else { 0 };
    let ra: u16 = if f.recursion_available { 0x0080 } else { 0 };
    let ad: u16 = if f.authentic_data { 0x0020 } else { 0 };
    let cd: u16 = if f.checking_disabled { 0x0010 } else { 0 };
    let rc: u16 = spec_error_code_to_bits(f.error_code);
    assert(rc <= 15);
    let bits: u16 = spec_flags_to_u16(f);
    assert(bits == (r + a + t + rd + ra + ad + cd + rc) as u16);
    assert((((r + a + t + rd + ra + ad + cd + rc) as u16) & 0x8000 == 0x8000 <==> r == 0x8000)
        && (((r + a + t + rd + ra + ad + cd + rc) as u16) & 0x0400 == 0x0400 <==> a == 0x0400)
        && (((r + a + t + rd + ra + ad + cd + rc) as u16) & 0x0200 == 0x0200 <==> t == 0x0200)
        && (((r + a + t + rd + ra + ad + cd + rc) as u16) & 0x0100 == 0x0100 <==> rd == 0x0100)
        && (((r + a + t + rd + ra + ad + cd + rc) as u16) & 0x0080 == 0x0080 <==> ra == 0x0080)
        && (((r + a + t + rd + ra + ad + cd + rc) as u16) & 0x0020 == 0x0020 <==> ad == 0x0020)
        && (((r + a + t + rd + ra + ad + cd + rc) as u16) & 0x0010 == 0x0010 <==> cd == 0x0010)
        && ((r + a + t + rd + ra + ad + cd + rc) as u16) & 0x000F == rc) by (bit_vector)
        requires
            r == 0 || r == 0x8000,
            a == 0 || a == 0x0400,
            t == 0 || t == 0x0200,
            rd == 0 || rd == 0x0100,
            ra == 0 || ra == 0x0080,
            ad == 0 || ad == 0x0020,
            cd == 0 || cd == 0x0010,
            rc <= 15,
    ;
}

} // verus!
