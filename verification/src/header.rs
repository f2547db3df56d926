//! The fixed twelve-octet header of a message.
//!
//! ```text
//!                                1  1  1  1  1  1
//!  0  1  2  3  4  5  6  7  8  9  0  1  2  3  4  5
//! +--+--+--+--+--+--+--+--+--+--+--+--+--+--+--+--+
//! |                      ID                       |
//! +--+--+--+--+--+--+--+--+--+--+--+--+--+--+--+--+
//! |QR|   Opcode  |AA|TC|RD|RA|   Z    |   RCODE   |
//! +--+--+--+--+--+--+--+--+--+--+--+--+--+--+--+--+
//! |                    QDCOUNT                    |
//! +--+--+--+--+--+--+--+--+--+--+--+--+--+--+--+--+
//! |                    ANCOUNT                    |
//! +--+--+--+--+--+--+--+--+--+--+--+--+--+--+--+--+
//! |                    NSCOUNT                    |
//! +--+--+--+--+--+--+--+--+--+--+--+--+--+--+--+--+
//! |                    ARCOUNT                    |
//! +--+--+--+--+--+--+--+--+--+--+--+--+--+--+--+--+
//! ```
//!
//! See [RFC 1035 section 4.1.1](https://datatracker.ietf.org/doc/html/rfc1035#section-4.1.1).

use crate::cursor::{spec_has, Cursor};
use crate::wire;
use rand::Rng;
use vstd::prelude::*;
use vstd::slice::slice_subrange;

verus! {

/// What can go wrong with a header.
#[derive(Debug, Clone, Copy, PartialEq, Eq)]
pub enum Error {
    /// Fewer than twelve octets were left to read.
    Truncated,
    /// A number that does not fit the four bits of an opcode.
    OpCode(u8),
    /// A number that does not fit the four bits of a response code.
    ResponseCode(u8),
    /// The three reserved bits of a header, where they are not all zero.
    ReservedBits(u8),
}

pub type Result<T> = std::result::Result<T, Error>;

/// The kind of query, set by the sender and copied into the response.
#[derive(Debug, Clone, Copy, PartialEq, Eq, Structural)]
pub enum OpCode {
    /// A standard query
    Query,
    /// An inverse query
    InverseQuery,
    /// A server status request
    Status,
    /// A number reserved for future use, 3 to 15. It is kept, so that a
    /// header is written as it was read.
    Reserved(u8),
}

impl OpCode {
    /// Whether this is an opcode of the wire: a reserved one holds a number
    /// from 3 to 15.
    pub open spec fn spec_valid(self) -> bool {
        match self {
            OpCode::Reserved(n) => 3 <= n <= 15,
            _ => true,
        }
    }

    /// Whether this is an opcode of the wire.
    pub fn is_valid(self) -> (b: bool)
        ensures
            b == self.spec_valid(),
    {
        match self {
            OpCode::Reserved(n) => 3 <= n && n <= 15,
            _ => true,
        }
    }

    /// The number that stands for this opcode on the wire.
    pub open spec fn spec_number(self) -> u8 {
        match self {
            OpCode::Query => 0,
            OpCode::InverseQuery => 1,
            OpCode::Status => 2,
            OpCode::Reserved(n) => n,
        }
    }

    /// The opcode that a number stands for: one of the three that have a
    /// meaning, or the number itself as a reserved one.
    pub open spec fn spec_from(value: u8) -> OpCode {
        if value == 0 {
            OpCode::Query
        } else if value == 1 {
            OpCode::InverseQuery
        } else if value == 2 {
            OpCode::Status
        } else {
            OpCode::Reserved(value)
        }
    }

    /// The number that stands for this opcode on the wire.
    pub fn number(self) -> (n: u8)
        ensures
            n == self.spec_number(),
    {
        match self {
            OpCode::Query => 0,
            OpCode::InverseQuery => 1,
            OpCode::Status => 2,
            OpCode::Reserved(n) => n,
        }
    }

    /// The number of an opcode of the wire fits four bits, and the opcode is
    /// read back from it.
    pub proof fn lemma_number_round_trip(self)
        requires
            self.spec_valid(),
        ensures
            self.spec_number() <= 15,
            OpCode::spec_from(self.spec_number()) == self,
    {
    }

    /// Every number of four bits stands for an opcode of the wire, and is
    /// the number of that opcode: a reserved number is kept.
    pub proof fn lemma_code_round_trip(value: u8)
        requires
            value <= 15,
        ensures
            OpCode::spec_from(value).spec_valid(),
            OpCode::spec_from(value).spec_number() == value,
    {
    }

    /// The name of this opcode in words.
    pub open spec fn spec_describe(self) -> Seq<char> {
        match self {
            OpCode::Query => "Query"@,
            OpCode::InverseQuery => "Inverse Query"@,
            OpCode::Status => "Status"@,
            OpCode::Reserved(_) => "Reserved"@,
        }
    }

    /// The name of this opcode in words.
    pub fn describe(&self) -> (s: &'static str)
        ensures
            s@ == self.spec_describe(),
    {
        match self {
            OpCode::Query => "Query",
            OpCode::InverseQuery => "Inverse Query",
            OpCode::Status => "Status",
            OpCode::Reserved(_) => "Reserved",
        }
    }
}

impl TryFrom<u8> for OpCode {
    type Error = Error;

    /// Reads an opcode from a number. Every number of four bits has one,
    /// and a reserved one keeps its number; a larger number is an error.
    fn try_from(value: u8) -> (r: Result<OpCode>) {
        if value == 0 {
            Ok(OpCode::Query)
        } else if value == 1 {
            Ok(OpCode::InverseQuery)
        } else if value == 2 {
            Ok(OpCode::Status)
        } else if value <= 15 {
            Ok(OpCode::Reserved(value))
        } else {
            Err(Error::OpCode(value))
        }
    }
}

impl vstd::std_specs::convert::TryFromSpecImpl<u8> for OpCode {
    open spec fn obeys_try_from_spec() -> bool {
        true
    }

    open spec fn try_from_spec(value: u8) -> Result<OpCode> {
        if value <= 15 {
            Ok(OpCode::spec_from(value))
        } else {
            Err(Error::OpCode(value))
        }
    }
}

impl Default for OpCode {
    fn default() -> (r: OpCode)
        ensures
            r == OpCode::Query,
    {
        OpCode::Query
    }
}

/// The outcome that a response reports.
#[derive(Debug, Clone, Copy, PartialEq, Eq, Structural)]
pub enum ResponseCode {
    /// No error condition
    NoError,
    /// The name server was unable to interpret the query.
    FormErr,
    /// The name server was unable to process this query due to a problem
    /// with the name server.
    ServFail,
    /// The domain name referenced in the query does not exist.
    NxDomain,
    /// The name server does not support the requested kind of query.
    NotImp,
    /// The name server refuses to perform the operation for policy reasons.
    Refused,
    /// A number reserved for future use, 6 to 15. It is kept, so that a
    /// header is written as it was read.
    Reserved(u8),
}

impl ResponseCode {
    /// Whether this is a response code of the wire: a reserved one holds a
    /// number from 6 to 15.
    pub open spec fn spec_valid(self) -> bool {
        match self {
            ResponseCode::Reserved(n) => 6 <= n <= 15,
            _ => true,
        }
    }

    /// Whether this is a response code of the wire.
    pub fn is_valid(self) -> (b: bool)
        ensures
            b == self.spec_valid(),
    {
        match self {
            ResponseCode::Reserved(n) => 6 <= n && n <= 15,
            _ => true,
        }
    }

    /// The number of a response code of the wire fits four bits, and the
    /// code is read back from it.
    pub proof fn lemma_number_round_trip(self)
        requires
            self.spec_valid(),
        ensures
            self.spec_number() <= 15,
            ResponseCode::spec_from(self.spec_number()) == self,
    {
    }

    /// Every number of four bits stands for a response code of the wire,
    /// and is the number of that code: a reserved number is kept.
    pub proof fn lemma_code_round_trip(value: u8)
        requires
            value <= 15,
        ensures
            ResponseCode::spec_from(value).spec_valid(),
            ResponseCode::spec_from(value).spec_number() == value,
    {
    }

    /// The number that stands for this response code on the wire.
    pub open spec fn spec_number(self) -> u8 {
        match self {
            ResponseCode::NoError => 0,
            ResponseCode::FormErr => 1,
            ResponseCode::ServFail => 2,
            ResponseCode::NxDomain => 3,
            ResponseCode::NotImp => 4,
            ResponseCode::Refused => 5,
            ResponseCode::Reserved(n) => n,
        }
    }

    /// The response code that a number stands for: one of the six that have
    /// a meaning, or the number itself as a reserved one.
    pub open spec fn spec_from(value: u8) -> ResponseCode {
        if value == 0 {
            ResponseCode::NoError
        } else if value == 1 {
            ResponseCode::FormErr
        } else if value == 2 {
            ResponseCode::ServFail
        } else if value == 3 {
            ResponseCode::NxDomain
        } else if value == 4 {
            ResponseCode::NotImp
        } else if value == 5 {
            ResponseCode::Refused
        } else {
            ResponseCode::Reserved(value)
        }
    }

    /// The number that stands for this response code on the wire.
    pub fn number(self) -> (n: u8)
        ensures
            n == self.spec_number(),
    {
        match self {
            ResponseCode::NoError => 0,
            ResponseCode::FormErr => 1,
            ResponseCode::ServFail => 2,
            ResponseCode::NxDomain => 3,
            ResponseCode::NotImp => 4,
            ResponseCode::Refused => 5,
            ResponseCode::Reserved(n) => n,
        }
    }

    /// The name of this response code in words.
    pub open spec fn spec_describe(self) -> Seq<char> {
        match self {
            ResponseCode::NoError => "No Error"@,
            ResponseCode::FormErr => "Format Error"@,
            ResponseCode::ServFail => "Server Failure"@,
            ResponseCode::NxDomain => "Nonexistent Domain"@,
            ResponseCode::NotImp => "Not Implemented"@,
            ResponseCode::Refused => "Refused"@,
            ResponseCode::Reserved(_) => "Reserved"@,
        }
    }

    /// The name of this response code in words.
    pub fn describe(&self) -> (s: &'static str)
        ensures
            s@ == self.spec_describe(),
    {
        match self {
            ResponseCode::NoError => "No Error",
            ResponseCode::FormErr => "Format Error",
            ResponseCode::ServFail => "Server Failure",
            ResponseCode::NxDomain => "Nonexistent Domain",
            ResponseCode::NotImp => "Not Implemented",
            ResponseCode::Refused => "Refused",
            ResponseCode::Reserved(_) => "Reserved",
        }
    }
}

impl TryFrom<u8> for ResponseCode {
    type Error = Error;

    /// Reads a response code from a number. Every number of four bits has
    /// one, and a reserved one keeps its number; a larger number is an
    /// error.
    fn try_from(value: u8) -> (r: Result<ResponseCode>) {
        if value == 0 {
            Ok(ResponseCode::NoError)
        } else if value == 1 {
            Ok(ResponseCode::FormErr)
        } else if value == 2 {
            Ok(ResponseCode::ServFail)
        } else if value == 3 {
            Ok(ResponseCode::NxDomain)
        } else if value == 4 {
            Ok(ResponseCode::NotImp)
        } else if value == 5 {
            Ok(ResponseCode::Refused)
        } else if value <= 15 {
            Ok(ResponseCode::Reserved(value))
        } else {
            Err(Error::ResponseCode(value))
        }
    }
}

impl vstd::std_specs::convert::TryFromSpecImpl<u8> for ResponseCode {
    open spec fn obeys_try_from_spec() -> bool {
        true
    }

    open spec fn try_from_spec(value: u8) -> Result<ResponseCode> {
        if value <= 15 {
            Ok(ResponseCode::spec_from(value))
        } else {
            Err(Error::ResponseCode(value))
        }
    }
}

impl Default for ResponseCode {
    fn default() -> (r: ResponseCode)
        ensures
            r == ResponseCode::NoError,
    {
        ResponseCode::NoError
    }
}

/// The second 16-bit field of a header, taken apart.
///
/// ```text
///                                1  1  1  1  1  1
///  0  1  2  3  4  5  6  7  8  9  0  1  2  3  4  5
/// +--+--+--+--+--+--+--+--+--+--+--+--+--+--+--+--+
/// |QR|   OpCode  |AA|TC|RD|RA|   Z    |  RespCode |
/// +--+--+--+--+--+--+--+--+--+--+--+--+--+--+--+--+
/// ```
#[derive(Debug, Clone, Copy, PartialEq, Eq, Structural)]
pub struct HeaderFlags {
    /// Whether this message is a query (false) or a response (true).
    pub query_response: bool,
    /// The kind of query.
    pub op_code: OpCode,
    /// Authoritative Answer: the responding name server is an authority
    /// for the domain name in the question section.
    pub auth_answer: bool,
    /// TrunCation: the message was cut to fit the transmission channel.
    pub truncated: bool,
    /// Recursion Desired: asks the name server to pursue the query
    /// recursively.
    pub recursion_desired: bool,
    /// Recursion Available: the name server offers recursive queries.
    pub recursion_avail: bool,
    /// The outcome that a response reports.
    pub response_code: ResponseCode,
}

/// One when the bit is set, zero when it is not.
pub open spec fn spec_bit(b: bool) -> int {
    if b {
        1
    } else {
        0
    }
}

impl Default for HeaderFlags {
    fn default() -> (r: HeaderFlags)
        ensures
            r == HeaderFlags::spec_default(),
    {
        HeaderFlags {
            query_response: false,
            op_code: OpCode::Query,
            auth_answer: false,
            truncated: false,
            recursion_desired: false,
            recursion_avail: false,
            response_code: ResponseCode::NoError,
        }
    }
}

impl HeaderFlags {
    /// The flags of a standard query with no bit set.
    pub open spec fn spec_default() -> HeaderFlags {
        HeaderFlags {
            query_response: false,
            op_code: OpCode::Query,
            auth_answer: false,
            truncated: false,
            recursion_desired: false,
            recursion_avail: false,
            response_code: ResponseCode::NoError,
        }
    }

    /// Whether the flags have a 16-bit field: opcode and response code are
    /// codes of the wire, of four bits each.
    pub open spec fn spec_valid(self) -> bool {
        self.op_code.spec_valid() && self.response_code.spec_valid()
    }

    /// Whether the flags have a 16-bit field.
    pub fn is_valid(&self) -> (b: bool)
        ensures
            b == self.spec_valid(),
    {
        self.op_code.is_valid() && self.response_code.is_valid()
    }

    /// The 16-bit field that packs these flags: from the most significant
    /// bit down, QR, four bits of opcode, AA, TC, RD, RA, three zero bits
    /// and four bits of response code.
    pub open spec fn spec_as_u16(self) -> int {
        spec_bit(self.query_response) * 32768 + self.op_code.spec_number() * 2048 + spec_bit(
            self.auth_answer,
        ) * 1024 + spec_bit(self.truncated) * 512 + spec_bit(self.recursion_desired) * 256
            + spec_bit(self.recursion_avail) * 128 + self.response_code.spec_number()
    }

    /// The flags that a 16-bit field packs, or the error for a field whose
    /// three reserved bits are not all zero.
    pub open spec fn spec_from_u16(bytes: u16) -> Result<HeaderFlags> {
        let reserved = (bytes / 16) % 8;
        let code = bytes % 16;
        if reserved != 0 {
            Err(Error::ReservedBits(reserved as u8))
        } else {
            Ok(
                HeaderFlags {
                    query_response: bytes / 32768 == 1,
                    op_code: OpCode::spec_from(((bytes / 2048) % 16) as u8),
                    auth_answer: (bytes / 1024) % 2 == 1,
                    truncated: (bytes / 512) % 2 == 1,
                    recursion_desired: (bytes / 256) % 2 == 1,
                    recursion_avail: (bytes / 128) % 2 == 1,
                    response_code: ResponseCode::spec_from(code as u8),
                },
            )
        }
    }

    /// Packs the flags into their 16-bit field. Flags with a code that
    /// does not fit four bits have none.
    pub fn as_u16(&self) -> (n: u16)
        requires
            self.spec_valid(),
        ensures
            n as int == self.spec_as_u16(),
    {
        let mut n: u16 = self.response_code.number() as u16;
        if self.recursion_avail {
            n = n + 128;
        }
        if self.recursion_desired {
            n = n + 256;
        }
        if self.truncated {
            n = n + 512;
        }
        if self.auth_answer {
            n = n + 1024;
        }
        n = n + (self.op_code.number() as u16) * 2048;
        if self.query_response {
            n = n + 32768;
        }
        n
    }

    /// Takes a 16-bit field apart. It fails exactly where one of the three
    /// reserved bits is set. Flags that were read are packed into the field
    /// that they were read from: a reserved code keeps its number.
    pub fn from_u16(bytes: u16) -> (r: Result<HeaderFlags>)
        ensures
            r == HeaderFlags::spec_from_u16(bytes),
            r.is_ok() == (bytes & 0x0070 == 0),
            r.is_ok() ==> r.unwrap().spec_valid() && r.unwrap().spec_as_u16() == bytes,
    {
        proof {
            lemma_field_round_trip(bytes);
        }
        let reserved: u8 = ((bytes / 16) % 8) as u8;
        if reserved != 0 {
            return Err(Error::ReservedBits(reserved));
        }
        let op_code = match OpCode::try_from(((bytes / 2048) % 16) as u8) {
            Ok(op) => op,
            Err(e) => {
                return Err(e);
            },
        };
        let response_code = match ResponseCode::try_from((bytes % 16) as u8) {
            Ok(code) => code,
            Err(e) => {
                return Err(e);
            },
        };
        Ok(
            HeaderFlags {
                query_response: bytes / 32768 == 1,
                op_code,
                auth_answer: (bytes / 1024) % 2 == 1,
                truncated: (bytes / 512) % 2 == 1,
                recursion_desired: (bytes / 256) % 2 == 1,
                recursion_avail: (bytes / 128) % 2 == 1,
                response_code,
            },
        )
    }

    /// Sets the QR bit.
    pub fn set_qr(&mut self, qr: bool) -> (ret: &mut Self)
        ensures
            *ret == (HeaderFlags { query_response: qr, ..*old(self) }),
            *final(self) == *final(ret),
    {
        self.query_response = qr;
        self
    }

    /// Sets the authoritative-answer bit.
    pub fn set_authoritative(&mut self, aa: bool) -> (ret: &mut Self)
        ensures
            *ret == (HeaderFlags { auth_answer: aa, ..*old(self) }),
            *final(self) == *final(ret),
    {
        self.auth_answer = aa;
        self
    }

    /// Sets the truncation bit.
    pub fn set_truncated(&mut self, tc: bool) -> (ret: &mut Self)
        ensures
            *ret == (HeaderFlags { truncated: tc, ..*old(self) }),
            *final(self) == *final(ret),
    {
        self.truncated = tc;
        self
    }

    /// Sets the recursion-desired bit.
    pub fn set_recursion_desired(&mut self, rd: bool) -> (ret: &mut Self)
        ensures
            *ret == (HeaderFlags { recursion_desired: rd, ..*old(self) }),
            *final(self) == *final(ret),
    {
        self.recursion_desired = rd;
        self
    }

    /// Sets the recursion-available bit.
    pub fn set_recursion_avail(&mut self, ra: bool) -> (ret: &mut Self)
        ensures
            *ret == (HeaderFlags { recursion_avail: ra, ..*old(self) }),
            *final(self) == *final(ret),
    {
        self.recursion_avail = ra;
        self
    }

    /// Sets the opcode from its number, or fails, changing nothing, where
    /// the number does not fit four bits.
    pub fn set_op_code(&mut self, op: u8) -> (r: Result<&mut Self>)
        ensures
            match r {
                Ok(ret) => op <= 15 && *ret == (HeaderFlags {
                    op_code: OpCode::spec_from(op),
                    ..*old(self)
                }) && ret.op_code.spec_valid() && *final(self) == *final(ret),
                Err(e) => op > 15 && e == Error::OpCode(op) && *final(self) == *old(self),
            },
    {
        match OpCode::try_from(op) {
            Ok(code) => {
                self.op_code = code;
                Ok(self)
            },
            Err(e) => Err(e),
        }
    }

    /// Sets the response code from its number, or fails, changing nothing,
    /// where the number does not fit four bits.
    pub fn set_response_code(&mut self, resp: u8) -> (r: Result<&mut Self>)
        ensures
            match r {
                Ok(ret) => resp <= 15 && *ret == (HeaderFlags {
                    response_code: ResponseCode::spec_from(resp),
                    ..*old(self)
                }) && ret.response_code.spec_valid() && *final(self) == *final(ret),
                Err(e) => resp > 15 && e == Error::ResponseCode(resp) && *final(self) == *old(
                    self,
                ),
            },
    {
        match ResponseCode::try_from(resp) {
            Ok(code) => {
                self.response_code = code;
                Ok(self)
            },
            Err(e) => Err(e),
        }
    }

    /// The flags as they stand.
    pub fn finalize(&mut self) -> (r: Self)
        ensures
            r == *old(self),
            *final(self) == *old(self),
    {
        *self
    }
}

impl TryFrom<u16> for HeaderFlags {
    type Error = Error;

    /// Takes a 16-bit field apart, as `from_u16` does.
    fn try_from(value: u16) -> (r: Result<HeaderFlags>) {
        HeaderFlags::from_u16(value)
    }
}

impl vstd::std_specs::convert::TryFromSpecImpl<u16> for HeaderFlags {
    open spec fn obeys_try_from_spec() -> bool {
        true
    }

    open spec fn try_from_spec(value: u16) -> Result<HeaderFlags> {
        HeaderFlags::spec_from_u16(value)
    }
}

/// A header with its flags still packed in one 16-bit field.
#[derive(Debug, Clone, Copy, PartialEq, Eq, Structural)]
pub struct DnsHeader {
    pub id: u16,
    pub flags: u16,
    pub num_questions: u16,
    pub num_answers: u16,
    pub num_authorities: u16,
    pub num_additionals: u16,
}

impl DnsHeader {
    /// The six fields in the order of the wire.
    pub open spec fn spec_fields(self) -> Seq<u16> {
        seq![
            self.id,
            self.flags,
            self.num_questions,
            self.num_answers,
            self.num_authorities,
            self.num_additionals,
        ]
    }

    /// The twelve octets of the header.
    pub open spec fn spec_bytes(self) -> Seq<u8> {
        wire::u16s_octets(self.spec_fields())
    }

    /// Encodes the header: six fields of two octets, each most significant
    /// octet first.
    pub fn to_bytes(self) -> (buf: Vec<u8>)
        ensures
            buf@ == self.spec_bytes(),
    {
        let mut buf: Vec<u8> = vec![0u8; 12];
        let fields: Vec<u16> = vec![
            self.id,
            self.flags,
            self.num_questions,
            self.num_answers,
            self.num_authorities,
            self.num_additionals,
        ];
        wire::write_u16_into(fields.as_slice(), &mut buf);
        assert(fields@ =~= self.spec_fields());
        buf
    }
}

/// Says which sections follow and what kind of message this is.
#[derive(Debug, Clone, Copy, PartialEq, Eq, Structural)]
pub struct Header {
    /// Chosen by the sender of a query and copied into the response.
    pub id: u16,
    pub flags: HeaderFlags,
    /// The number of entries in the question section.
    pub num_questions: u16,
    /// The number of records in the answer section.
    pub num_answers: u16,
    /// The number of records in the authority section.
    pub num_authorities: u16,
    /// The number of records in the additional section.
    pub num_additionals: u16,
}

/// Calls `rand::thread_rng` and `rand::Rng::gen` for a 16-bit number.
/// Nothing is claimed of the number: every value may come back. The first
/// call on a thread seeds the generator from the system, and later calls
/// reseed it from time to time; either panics where the system has no
/// entropy to give. No argument decides that, so no `requires` can leave it
/// out.
#[verifier::external_body]
pub(crate) fn random_id() -> (id: u16) {
    rand::thread_rng().gen()
}

/// The header that `buf` holds at `pos` and the position behind it.
pub open spec fn parse_header(buf: Seq<u8>, pos: int) -> Result<(Header, int)> {
    if !spec_has(buf, pos, 12) {
        Err(Error::Truncated)
    } else {
        match HeaderFlags::spec_from_u16(wire::spec_u16_at(buf, pos + 2)) {
            Err(e) => Err(e),
            Ok(flags) => Ok(
                (
                    Header {
                        id: wire::spec_u16_at(buf, pos),
                        flags,
                        num_questions: wire::spec_u16_at(buf, pos + 4),
                        num_answers: wire::spec_u16_at(buf, pos + 6),
                        num_authorities: wire::spec_u16_at(buf, pos + 8),
                        num_additionals: wire::spec_u16_at(buf, pos + 10),
                    },
                    pos + 12,
                ),
            ),
        }
    }
}

impl Header {
    /// The header of a query with one question and no records.
    pub fn new(id: u16, flags: HeaderFlags) -> (h: Self)
        ensures
            h == Header::spec_new(id, flags),
    {
        Header {
            id,
            flags,
            num_questions: 1,
            num_answers: 0,
            num_authorities: 0,
            num_additionals: 0,
        }
    }

    /// The header of a query with one question and no records.
    pub open spec fn spec_new(id: u16, flags: HeaderFlags) -> Header {
        Header {
            id,
            flags,
            num_questions: 1,
            num_answers: 0,
            num_authorities: 0,
            num_additionals: 0,
        }
    }

    /// The flags of a query of kind `query_type` with the two bits given.
    pub open spec fn spec_query_flags(
        query_type: u8,
        authoritative: bool,
        recursion_desired: bool,
    ) -> HeaderFlags {
        HeaderFlags {
            op_code: OpCode::spec_from(query_type),
            auth_answer: authoritative,
            recursion_desired,
            ..HeaderFlags::spec_default()
        }
    }

    /// The header of a query under a fresh random id. It fails exactly where
    /// `query_type` does not fit four bits. Whatever id was drawn, the rest
    /// of the header is that of `new` with the flags asked for.
    pub fn gen_query_header(query_type: u8, authoritative: bool, recursion_desired: bool) -> (r:
        Result<Self>)
        ensures
            match r {
                Ok(h) => query_type <= 15 && h == Header::spec_new(
                    h.id,
                    Header::spec_query_flags(query_type, authoritative, recursion_desired),
                ) && h.flags.spec_valid(),
                Err(e) => query_type > 15 && e == Error::OpCode(query_type),
            },
    {
        let mut flags = HeaderFlags::default();
        match OpCode::try_from(query_type) {
            Ok(code) => {
                flags.op_code = code;
            },
            Err(e) => {
                return Err(e);
            },
        }
        flags.auth_answer = authoritative;
        flags.recursion_desired = recursion_desired;
        Ok(Header::new(random_id(), flags))
    }

    /// The header with its flags packed.
    pub open spec fn spec_packed(self) -> DnsHeader {
        DnsHeader {
            id: self.id,
            flags: self.flags.spec_as_u16() as u16,
            num_questions: self.num_questions,
            num_answers: self.num_answers,
            num_authorities: self.num_authorities,
            num_additionals: self.num_additionals,
        }
    }

    /// The twelve octets of the header.
    pub open spec fn spec_bytes(self) -> Seq<u8> {
        self.spec_packed().spec_bytes()
    }

    /// Encodes the header. A header whose flags have no 16-bit field is not
    /// encoded.
    pub fn into_bytes(self) -> (buf: Vec<u8>)
        requires
            self.flags.spec_valid(),
        ensures
            buf@ == self.spec_bytes(),
    {
        let packed = DnsHeader {
            id: self.id,
            flags: self.flags.as_u16(),
            num_questions: self.num_questions,
            num_answers: self.num_answers,
            num_authorities: self.num_authorities,
            num_additionals: self.num_additionals,
        };
        packed.to_bytes()
    }

    /// Decodes a header at the cursor and steps over it. On an error the
    /// cursor stays where it was. The flags of a header that was read have
    /// a 16-bit field: the one that they were read from.
    pub fn from_bytes(bytes: &mut Cursor) -> (r: Result<Self>)
        ensures
            final(bytes).bytes == old(bytes).bytes,
            r.is_ok() ==> r.unwrap().flags.spec_valid() && r.unwrap().flags.spec_as_u16()
                == wire::spec_u16_at(old(bytes).bytes@, old(bytes).pos + 2),
            match parse_header(old(bytes).bytes@, old(bytes).pos as int) {
                Ok((h, next)) => r == Ok::<Header, Error>(h) && final(bytes).pos == next,
                Err(e) => r == Err::<Header, Error>(e) && final(bytes).pos == old(bytes).pos,
            },
    {
        if !bytes.has(12) {
            return Err(Error::Truncated);
        }
        let mut fields: Vec<u16> = vec![0u16; 6];
        wire::read_u16_into(slice_subrange(bytes.bytes, bytes.pos, bytes.pos + 12), &mut fields);
        let flags = match HeaderFlags::from_u16(fields[1]) {
            Ok(flags) => flags,
            Err(e) => {
                return Err(e);
            },
        };
        let header = Header {
            id: fields[0],
            flags,
            num_questions: fields[2],
            num_answers: fields[3],
            num_authorities: fields[4],
            num_additionals: fields[5],
        };
        bytes.pos = bytes.pos + 12;
        Ok(header)
    }
}

/// A header whose flags have a 16-bit field is read back from its twelve
/// octets as it was, wherever in a buffer they stand.
pub proof fn lemma_header_round_trip(before: Seq<u8>, h: Header, after: Seq<u8>)
    requires
        h.flags.spec_valid(),
    ensures
        parse_header(before + h.spec_bytes() + after, before.len() as int) == Ok::<
            (Header, int),
            Error,
        >((h, (before.len() + 12) as int)),
{
    let buf = before + h.spec_bytes() + after;
    let pos = before.len() as int;
    let fields = h.spec_packed().spec_fields();
    lemma_flags_round_trip(h.flags);
    assert(h.spec_bytes().len() == 12);
    assert forall|i: int| 0 <= i < 6 implies wire::spec_u16_at(buf, pos + 2 * i)
        == #[trigger] fields[i] by {
        assert(buf[pos + 2 * i] == h.spec_bytes()[2 * i]);
        assert(buf[pos + 2 * i + 1] == h.spec_bytes()[2 * i + 1]);
        wire::lemma_u16_round_trip(fields[i]);
    }
    assert(wire::spec_u16_at(buf, pos) == fields[0]);
    assert(wire::spec_u16_at(buf, pos + 2) == fields[1]);
    assert(wire::spec_u16_at(buf, pos + 4) == fields[2]);
    assert(wire::spec_u16_at(buf, pos + 6) == fields[3]);
    assert(wire::spec_u16_at(buf, pos + 8) == fields[4]);
    assert(wire::spec_u16_at(buf, pos + 10) == fields[5]);
}

/// Packing flags and taking the field apart again gives the flags back, for
/// every combination of bits and of codes of the wire, the reserved codes
/// among them.
pub proof fn lemma_flags_round_trip(flags: HeaderFlags)
    requires
        flags.spec_valid(),
    ensures
        0 <= flags.spec_as_u16() <= u16::MAX,
        flags.spec_as_u16() as u16 & 0x0070 == 0,
        HeaderFlags::spec_from_u16(flags.spec_as_u16() as u16) == Ok::<HeaderFlags, Error>(flags),
{
    let field = flags.spec_as_u16() as u16;
    lemma_field_round_trip(field);
}

/// Taking a 16-bit field apart and packing the flags again gives the field
/// back: a field is read exactly where its three reserved bits are zero,
/// and then every code in it, reserved or not, is written as it was read.
pub proof fn lemma_field_round_trip(field: u16)
    ensures
        HeaderFlags::spec_from_u16(field).is_ok() == (field & 0x0070 == 0),
        match HeaderFlags::spec_from_u16(field) {
            Ok(flags) => flags.spec_valid() && flags.spec_as_u16() == field,
            Err(e) => e == Error::ReservedBits(((field / 16) % 8) as u8),
        },
{
    assert((field & 0x0070 == 0) == ((field / 16) % 8 == 0)) by (bit_vector);
    if (field / 16) % 8 == 0 {
        let op = ((field / 2048) % 16) as u8;
        let code = (field % 16) as u8;
        OpCode::lemma_code_round_trip(op);
        ResponseCode::lemma_code_round_trip(code);
        lemma_field_parts(field);
    }
}

/// A 16-bit field is the sum of its parts, each at its place.
proof fn lemma_field_parts(field: u16)
    ensures
        field == (field / 32768) * 32768 + ((field / 2048) % 16) * 2048 + ((field / 1024) % 2)
            * 1024 + ((field / 512) % 2) * 512 + ((field / 256) % 2) * 256 + ((field / 128) % 2)
            * 128 + ((field / 16) % 8) * 16 + field % 16,
        field / 32768 <= 1,
{
    let f = field as int;
    assert(f == (f / 16) * 16 + f % 16);
    assert(f / 16 == (f / 128) * 8 + (f / 16) % 8);
    assert(f / 128 == (f / 256) * 2 + (f / 128) % 2);
    assert(f / 256 == (f / 512) * 2 + (f / 256) % 2);
    assert(f / 512 == (f / 1024) * 2 + (f / 512) % 2);
    assert(f / 1024 == (f / 2048) * 2 + (f / 1024) % 2);
    assert(f / 2048 == (f / 32768) * 16 + (f / 2048) % 16);
}

} // verus!
