//! The question section: what is being asked.
//!
//! ```text
//!                                     1  1  1  1  1  1
//!       0  1  2  3  4  5  6  7  8  9  0  1  2  3  4  5
//!     +--+--+--+--+--+--+--+--+--+--+--+--+--+--+--+--+
//!     |                                               |
//!     /                     QNAME                     /
//!     /                                               /
//!     +--+--+--+--+--+--+--+--+--+--+--+--+--+--+--+--+
//!     |                     QTYPE                     |
//!     +--+--+--+--+--+--+--+--+--+--+--+--+--+--+--+--+
//!     |                     QCLASS                    |
//!     +--+--+--+--+--+--+--+--+--+--+--+--+--+--+--+--+
//! ```

use crate::cursor::{spec_has, Cursor};
use crate::dname;
use crate::dname::{encode_labels, parse_name, spec_encodable, spec_plain, DomainName};
use crate::qclass::QClass;
use crate::qtype::QType;
use crate::wire;
use crate::wire::{spec_u16_at, u16_octets};
use vstd::prelude::*;

verus! {

/// What can go wrong while a question is read.
#[derive(Debug, Clone, Copy, PartialEq, Eq)]
pub enum Error {
    /// The buffer ended where the type or the class was due.
    Truncated,
    /// The name could not be read.
    Name(dname::Error),
    /// A code that stands for no type.
    UnknownType(u16),
    /// A code that stands for no class.
    UnknownClass(u16),
}

pub type Result<T> = std::result::Result<T, Error>;

impl Error {
    /// Whether the error says that the buffer ended too early.
    pub open spec fn spec_is_truncated(self) -> bool {
        match self {
            Error::Truncated => true,
            Error::Name(e) => e.spec_is_truncated(),
            _ => false,
        }
    }

    /// Whether the error says that the buffer ended too early.
    pub fn is_truncated(&self) -> (b: bool)
        ensures
            b == self.spec_is_truncated(),
    {
        match self {
            Error::Truncated => true,
            Error::Name(e) => e.is_truncated(),
            _ => false,
        }
    }
}

/// The parameters of a query.
#[derive(Debug, Clone, PartialEq, Eq)]
pub struct Question {
    /// The name that is asked about.
    pub qname: DomainName,
    /// The type of record that is asked for.
    pub qtype: QType,
    /// The class that is asked for, `IN` for the Internet.
    pub qclass: QClass,
}

/// A question as a mathematical value.
pub ghost struct QuestionView {
    pub qname: Seq<Seq<u8>>,
    pub qtype: QType,
    pub qclass: QClass,
}

impl View for Question {
    type V = QuestionView;

    open spec fn view(&self) -> QuestionView {
        QuestionView { qname: self.qname@, qtype: self.qtype, qclass: self.qclass }
    }
}

/// A question on the wire: the name, then type and class in two octets each.
pub open spec fn encode_question(q: QuestionView) -> Seq<u8> {
    encode_labels(q.qname) + u16_octets(q.qtype.spec_number()) + u16_octets(
        q.qclass.spec_number(),
    )
}

/// The question that `buf` holds at `pos`, and the position behind it.
pub open spec fn parse_question(buf: Seq<u8>, pos: int) -> Result<(QuestionView, int)> {
    match parse_name(buf, pos) {
        Err(e) => Err(Error::Name(e)),
        Ok((qname, at)) => {
            if !spec_has(buf, at, 2) {
                Err(Error::Truncated)
            } else {
                match QType::spec_from(spec_u16_at(buf, at)) {
                    None => Err(Error::UnknownType(spec_u16_at(buf, at))),
                    Some(qtype) => {
                        if !spec_has(buf, at + 2, 2) {
                            Err(Error::Truncated)
                        } else {
                            match QClass::spec_from(spec_u16_at(buf, at + 2)) {
                                None => Err(Error::UnknownClass(spec_u16_at(buf, at + 2))),
                                Some(qclass) => Ok(
                                    (QuestionView { qname, qtype, qclass }, at + 4),
                                ),
                            }
                        }
                    },
                }
            }
        },
    }
}

/// Whether `cut` is `whole` or else fails for want of octets.
pub open spec fn spec_cut_short(
    cut: Result<(QuestionView, int)>,
    whole: Result<(QuestionView, int)>,
) -> bool {
    cut == whole || match cut {
        Err(e) => e.spec_is_truncated(),
        Ok(_) => false,
    }
}

impl Question {
    /// Encodes the question without consuming it.
    pub fn to_bytes(&self) -> (buf: Vec<u8>)
        requires
            spec_encodable(self.qname@),
        ensures
            buf@ == encode_question(self@),
    {
        let mut buf = self.qname.encode_dns_name();
        wire::write_u16(&mut buf, self.qtype.number());
        wire::write_u16(&mut buf, self.qclass.number());
        buf
    }

    /// Encodes the question: the name, the type, the class.
    pub fn into_bytes(self) -> (buf: Vec<u8>)
        requires
            spec_encodable(self.qname@),
        ensures
            buf@ == encode_question(self@),
    {
        self.to_bytes()
    }

    /// Decodes a question at the cursor and steps over it. On an error the
    /// cursor stays where it was.
    pub fn from_bytes(bytes: &mut Cursor) -> (r: Result<Self>)
        ensures
            final(bytes).bytes == old(bytes).bytes,
            match parse_question(old(bytes).bytes@, old(bytes).pos as int) {
                Ok((q, next)) => r.is_ok() && r.unwrap()@ == q && final(bytes).pos == next,
                Err(e) => r == Err::<Question, Error>(e) && final(bytes).pos == old(bytes).pos,
            },
    {
        let start = bytes.pos;
        let qname = match DomainName::from_bytes(bytes) {
            Ok(qname) => qname,
            Err(e) => {
                return Err(Error::Name(e));
            },
        };
        let type_code: u16 = match bytes.read_u16() {
            Some(code) => code,
            None => {
                bytes.pos = start;
                return Err(Error::Truncated);
            },
        };
        let qtype = match QType::from_u16(type_code) {
            Some(qtype) => qtype,
            None => {
                bytes.pos = start;
                return Err(Error::UnknownType(type_code));
            },
        };
        let class_code: u16 = match bytes.read_u16() {
            Some(code) => code,
            None => {
                bytes.pos = start;
                return Err(Error::Truncated);
            },
        };
        let qclass = match QClass::from_u16(class_code) {
            Some(qclass) => qclass,
            None => {
                bytes.pos = start;
                return Err(Error::UnknownClass(class_code));
            },
        };
        Ok(Question { qname, qtype, qclass })
    }
}

/// A question is read back from its encoding as it was, wherever in a
/// buffer the encoding stands, where its name has labels that are each text
/// of 1 to 63 octets and takes no more than 255 octets on the wire.
pub proof fn lemma_question_round_trip(before: Seq<u8>, q: QuestionView, after: Seq<u8>)
    requires
        spec_plain(q.qname),
        encode_labels(q.qname).len() <= 255,
    ensures
        parse_question(before + encode_question(q) + after, before.len() as int) == Ok::<
            (QuestionView, int),
            Error,
        >((q, (before.len() + encode_question(q).len()) as int)),
{
    let name = encode_labels(q.qname);
    let tail = u16_octets(q.qtype.spec_number()) + u16_octets(q.qclass.spec_number()) + after;
    let buf = before + encode_question(q) + after;
    assert(buf =~= before + name + tail);
    dname::lemma_name_round_trip(before, q.qname, tail);
    let at = (before.len() + name.len()) as int;
    assert(buf[at] == wire::high_octet(q.qtype.spec_number()));
    assert(buf[at + 1] == wire::low_octet(q.qtype.spec_number()));
    assert(buf[at + 2] == wire::high_octet(q.qclass.spec_number()));
    assert(buf[at + 3] == wire::low_octet(q.qclass.spec_number()));
    wire::lemma_u16_round_trip(q.qtype.spec_number());
    wire::lemma_u16_round_trip(q.qclass.spec_number());
    q.qtype.lemma_number_round_trip();
    q.qclass.lemma_number_round_trip();
}

/// Cutting a buffer short changes what is read of a question in one way
/// only: the reading may fail for want of octets.
pub proof fn lemma_question_prefix(buf: Seq<u8>, k: int, pos: int)
    requires
        0 <= k <= buf.len(),
    ensures
        spec_cut_short(parse_question(buf.take(k), pos), parse_question(buf, pos)),
{
    dname::lemma_name_prefix(buf, k, pos, pos, 0);
    dname::lemma_name_within(buf.take(k), pos, pos, 0);
}

/// A question that was read ends within the buffer, behind where it began.
pub proof fn lemma_question_within(buf: Seq<u8>, pos: int)
    ensures
        parse_question(buf, pos).is_ok() ==> 0 <= pos < parse_question(buf, pos).unwrap().1
            <= buf.len(),
{
    dname::lemma_name_within(buf, pos, pos, 0);
}

} // verus!
