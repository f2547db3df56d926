//! A query as it is sent: a header with packed flags and one question.

use crate::dname::{spec_encodable, split_dots, DomainName};
use crate::header::{random_id, DnsHeader};
use crate::qclass::QClass;
use crate::qtype::QType;
use crate::question::{encode_question, Question, QuestionView};
use vstd::prelude::*;
use vstd::utf8::encode_utf8;

verus! {

/// One question under a header whose flags are given as a number.
#[derive(Debug, Clone)]
pub struct Query {
    pub header: DnsHeader,
    pub question: Question,
}

impl Query {
    /// The header of a query with one question and no records.
    pub open spec fn spec_header(id: u16, flags: u16) -> DnsHeader {
        DnsHeader {
            id,
            flags,
            num_questions: 1,
            num_answers: 0,
            num_authorities: 0,
            num_additionals: 0,
        }
    }

    /// A query under a fresh random id for records of type `record_type`
    /// about `domain_name`, in class `IN`. Whatever id was drawn, the rest is
    /// fixed by the arguments.
    pub fn new(domain_name: &str, record_type: QType, flags: u16) -> (q: Self)
        ensures
            q.header == Query::spec_header(q.header.id, flags),
            q.question@ == (QuestionView {
                qname: split_dots(encode_utf8(domain_name@)),
                qtype: record_type,
                qclass: QClass::IN,
            }),
    {
        Query::with_id(random_id(), domain_name, record_type, flags)
    }

    /// The query under the id `id` for records of type `record_type` about
    /// `domain_name`, in class `IN`.
    pub fn with_id(id: u16, domain_name: &str, record_type: QType, flags: u16) -> (q: Self)
        ensures
            q.header == Query::spec_header(id, flags),
            q.question@ == (QuestionView {
                qname: split_dots(encode_utf8(domain_name@)),
                qtype: record_type,
                qclass: QClass::IN,
            }),
    {
        let header = DnsHeader {
            id,
            flags,
            num_questions: 1,
            num_answers: 0,
            num_authorities: 0,
            num_additionals: 0,
        };
        let question = Question {
            qname: DomainName::new(domain_name),
            qtype: record_type,
            qclass: QClass::IN,
        };
        Query { header, question }
    }

    /// Encodes the query: the header, then the question.
    pub fn into_bytes(self) -> (buf: Vec<u8>)
        requires
            spec_encodable(self.question.qname@),
        ensures
            buf@ == self.header.spec_bytes() + encode_question(self.question@),
    {
        let mut buf = self.header.to_bytes();
        let mut question_bytes = self.question.into_bytes();
        buf.append(&mut question_bytes);
        buf
    }
}

} // verus!
