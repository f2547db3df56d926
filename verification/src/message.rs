//! Messages: everything that is sent or received is one message.
//!
//! ```text
//! +---------------------+
//! |        Header       |
//! +---------------------+
//! |       Question      | the question for the name server
//! +---------------------+
//! |        Answer       | RRs answering the question
//! +---------------------+
//! |      Authority      | RRs pointing toward an authority
//! +---------------------+
//! |      Additional     | RRs holding additional information
//! +---------------------+
//! ```

use crate::cursor::Cursor;
use crate::dname::{spec_encodable, split_dots, DomainName};
use crate::header;
use crate::header::{parse_header, Header};
use crate::qclass::QClass;
use crate::qtype::QType;
use crate::question;
use crate::question::{encode_question, parse_question, Question, QuestionView};
use crate::record;
use crate::record::{parse_record, Record, RecordView};
use vstd::prelude::*;
use vstd::utf8::encode_utf8;

verus! {

/// What can go wrong while a message is read.
#[derive(Debug, Clone, Copy, PartialEq, Eq)]
pub enum Error {
    /// The header could not be read.
    Header(header::Error),
    /// A question could not be read.
    Question(question::Error),
    /// A record could not be read.
    Record(record::Error),
}

pub type PacketError = Error;

pub type Result<T> = std::result::Result<T, Error>;

impl Error {
    /// Whether the error says that the buffer ended too early.
    pub open spec fn spec_is_truncated(self) -> bool {
        match self {
            Error::Header(e) => e == header::Error::Truncated,
            Error::Question(e) => e.spec_is_truncated(),
            Error::Record(e) => e.spec_is_truncated(),
        }
    }

    /// Whether the error says that the buffer ended too early.
    pub fn is_truncated(&self) -> (b: bool)
        ensures
            b == self.spec_is_truncated(),
    {
        match self {
            Error::Header(header::Error::Truncated) => true,
            Error::Header(_) => false,
            Error::Question(e) => e.is_truncated(),
            Error::Record(e) => e.is_truncated(),
        }
    }
}

/// One message: a header, the questions and three lists of records.
#[derive(Debug, Clone, PartialEq, Eq)]
pub struct Message {
    pub header: Header,
    /// The query name(s) and other query parameters.
    pub questions: Vec<Question>,
    /// Records which directly answer the query.
    pub answers: Vec<Record>,
    /// Records which describe other authoritative servers.
    pub authorities: Vec<Record>,
    /// Records which may be helpful in using the records in the other
    /// sections.
    pub additionals: Vec<Record>,
}

/// A message as it travels in one datagram.
pub type Packet = Message;

/// A message as a mathematical value.
pub ghost struct MessageView {
    pub header: Header,
    pub questions: Seq<QuestionView>,
    pub answers: Seq<RecordView>,
    pub authorities: Seq<RecordView>,
    pub additionals: Seq<RecordView>,
}

impl View for Message {
    type V = MessageView;

    open spec fn view(&self) -> MessageView {
        MessageView {
            header: self.header,
            questions: self.questions@.map_values(|q: Question| q@),
            answers: self.answers@.map_values(|r: Record| r@),
            authorities: self.authorities@.map_values(|r: Record| r@),
            additionals: self.additionals@.map_values(|r: Record| r@),
        }
    }
}

/// The three lists of records in a message.
#[derive(Debug, Clone, Copy, PartialEq, Eq, Structural)]
pub enum MsgSection {
    Answers,
    Authorities,
    Additionals,
}

/// The first `n` questions that `buf` holds from `pos` on, and the position
/// behind them.
pub open spec fn parse_questions(buf: Seq<u8>, pos: int, n: nat) -> question::Result<
    (Seq<QuestionView>, int),
>
    decreases n,
{
    if n == 0 {
        Ok((Seq::<QuestionView>::empty(), pos))
    } else {
        match parse_questions(buf, pos, (n - 1) as nat) {
            Err(e) => Err(e),
            Ok((questions, at)) => match parse_question(buf, at) {
                Err(e) => Err(e),
                Ok((q, next)) => Ok((questions.push(q), next)),
            },
        }
    }
}

/// The first `n` records that `buf` holds from `pos` on, and the position
/// behind them.
pub open spec fn parse_records(buf: Seq<u8>, pos: int, n: nat) -> record::Result<
    (Seq<RecordView>, int),
>
    decreases n,
{
    if n == 0 {
        Ok((Seq::<RecordView>::empty(), pos))
    } else {
        match parse_records(buf, pos, (n - 1) as nat) {
            Err(e) => Err(e),
            Ok((records, at)) => match parse_record(buf, at) {
                Err(e) => Err(e),
                Ok((r, next)) => Ok((records.push(r), next)),
            },
        }
    }
}

/// The message that `buf` holds at `pos`, and the position behind it: the
/// header, then as many questions, answers, authorities and additionals as
/// the header counts, in that order. The first error ends the reading.
pub open spec fn parse_message(buf: Seq<u8>, pos: int) -> Result<(MessageView, int)> {
    match parse_header(buf, pos) {
        Err(e) => Err(Error::Header(e)),
        Ok((header, h_end)) => match parse_questions(buf, h_end, header.num_questions as nat) {
            Err(e) => Err(Error::Question(e)),
            Ok((questions, q_end)) => match parse_records(buf, q_end, header.num_answers as nat) {
                Err(e) => Err(Error::Record(e)),
                Ok((answers, an_end)) => match parse_records(
                    buf,
                    an_end,
                    header.num_authorities as nat,
                ) {
                    Err(e) => Err(Error::Record(e)),
                    Ok((authorities, au_end)) => match parse_records(
                        buf,
                        au_end,
                        header.num_additionals as nat,
                    ) {
                        Err(e) => Err(Error::Record(e)),
                        Ok((additionals, next)) => Ok(
                            (
                                MessageView {
                                    header,
                                    questions,
                                    answers,
                                    authorities,
                                    additionals,
                                },
                                next,
                            ),
                        ),
                    },
                },
            },
        },
    }
}

/// The first record of type `qtype` in `records`.
pub open spec fn spec_first_of_type(records: Seq<RecordView>, qtype: QType) -> Option<RecordView>
    decreases records.len(),
{
    if records.len() == 0 {
        None
    } else if records[0].qtype == qtype {
        Some(records[0])
    } else {
        spec_first_of_type(records.drop_first(), qtype)
    }
}

/// The records of one section of a message.
pub open spec fn spec_section(m: MessageView, section: MsgSection) -> Seq<RecordView> {
    match section {
        MsgSection::Answers => m.answers,
        MsgSection::Authorities => m.authorities,
        MsgSection::Additionals => m.additionals,
    }
}

/// The view of a query for records of type `record_type` about the name
/// written as `text`, under the id `id`: one question of class `IN`, no
/// record, and no flag set but the two given.
pub open spec fn spec_query(
    id: u16,
    text: Seq<u8>,
    record_type: QType,
    authoritative: bool,
    recursion_desired: bool,
) -> MessageView {
    MessageView {
        header: Header::spec_new(
            id,
            Header::spec_query_flags(0, authoritative, recursion_desired),
        ),
        questions: seq![
            QuestionView { qname: split_dots(text), qtype: record_type, qclass: QClass::IN },
        ],
        answers: Seq::<RecordView>::empty(),
        authorities: Seq::<RecordView>::empty(),
        additionals: Seq::<RecordView>::empty(),
    }
}

/// Whether each list of a message is as long as its header says.
pub open spec fn spec_counts_match(m: MessageView) -> bool {
    &&& m.questions.len() == m.header.num_questions
    &&& m.answers.len() == m.header.num_answers
    &&& m.authorities.len() == m.header.num_authorities
    &&& m.additionals.len() == m.header.num_additionals
}

/// Whether a message is a query as it is sent: one question and no record,
/// under a header that counts just these and whose flags have a 16-bit
/// field.
pub open spec fn spec_query_shape(m: MessageView) -> bool {
    &&& m.header.flags.spec_valid()
    &&& m.questions.len() == 1
    &&& m.answers.len() == 0
    &&& m.authorities.len() == 0
    &&& m.additionals.len() == 0
    &&& m.header.num_questions == 1
    &&& m.header.num_answers == 0
    &&& m.header.num_authorities == 0
    &&& m.header.num_additionals == 0
}

/// A query on the wire: the header, then the single question.
pub open spec fn encode_query(m: MessageView) -> Seq<u8> {
    m.header.spec_bytes() + encode_question(m.questions[0])
}

/// Reads `n` questions at the cursor. On an error the cursor is left behind
/// the last question that was read.
fn read_questions(bytes: &mut Cursor, n: u16) -> (r: question::Result<Vec<Question>>)
    ensures
        final(bytes).bytes == old(bytes).bytes,
        match parse_questions(old(bytes).bytes@, old(bytes).pos as int, n as nat) {
            Ok((questions, next)) => r.is_ok() && r.unwrap()@.map_values(|q: Question| q@)
                == questions && final(bytes).pos == next,
            Err(e) => r == Err::<Vec<Question>, question::Error>(e),
        },
{
    let mut questions: Vec<Question> = Vec::new();
    let mut i: u16 = 0;
    assert(questions@.map_values(|q: Question| q@) =~= Seq::<QuestionView>::empty());
    while i < n
        invariant
            i <= n,
            bytes.bytes == old(bytes).bytes,
            parse_questions(old(bytes).bytes@, old(bytes).pos as int, i as nat) == Ok::<
                (Seq<QuestionView>, int),
                question::Error,
            >((questions@.map_values(|q: Question| q@), bytes.pos as int)),
        decreases n - i,
    {
        let ghost before = questions@.map_values(|q: Question| q@);
        match Question::from_bytes(bytes) {
            Ok(q) => {
                questions.push(q);
                assert(questions@.map_values(|q: Question| q@) =~= before.push(q@));
            },
            Err(e) => {
                proof {
                    lemma_questions_error_stays(
                        old(bytes).bytes@,
                        old(bytes).pos as int,
                        (i + 1) as nat,
                        n as nat,
                    );
                }
                return Err(e);
            },
        }
        i = i + 1;
    }
    Ok(questions)
}

/// Reads `n` records at the cursor. On an error the cursor is left behind
/// the last record that was read.
fn read_records(bytes: &mut Cursor, n: u16) -> (r: record::Result<Vec<Record>>)
    ensures
        final(bytes).bytes == old(bytes).bytes,
        match parse_records(old(bytes).bytes@, old(bytes).pos as int, n as nat) {
            Ok((records, next)) => r.is_ok() && r.unwrap()@.map_values(|r: Record| r@)
                == records && final(bytes).pos == next,
            Err(e) => r == Err::<Vec<Record>, record::Error>(e),
        },
{
    let mut records: Vec<Record> = Vec::new();
    let mut i: u16 = 0;
    assert(records@.map_values(|r: Record| r@) =~= Seq::<RecordView>::empty());
    while i < n
        invariant
            i <= n,
            bytes.bytes == old(bytes).bytes,
            parse_records(old(bytes).bytes@, old(bytes).pos as int, i as nat) == Ok::<
                (Seq<RecordView>, int),
                record::Error,
            >((records@.map_values(|r: Record| r@), bytes.pos as int)),
        decreases n - i,
    {
        let ghost before = records@.map_values(|r: Record| r@);
        match Record::from_bytes(bytes) {
            Ok(rec) => {
                records.push(rec);
                assert(records@.map_values(|r: Record| r@) =~= before.push(rec@));
            },
            Err(e) => {
                proof {
                    lemma_records_error_stays(
                        old(bytes).bytes@,
                        old(bytes).pos as int,
                        (i + 1) as nat,
                        n as nat,
                    );
                }
                return Err(e);
            },
        }
        i = i + 1;
    }
    Ok(records)
}

impl Message {
    /// A query with a fresh random id and a single question of class `IN`.
    /// Whatever id was drawn, the rest of the message is fixed by the
    /// arguments.
    pub fn new_query(
        domain_name: &str,
        record_type: QType,
        authoritative: bool,
        recursion_desired: bool,
    ) -> (m: Self)
        ensures
            m@ == spec_query(
                m.header.id,
                encode_utf8(domain_name@),
                record_type,
                authoritative,
                recursion_desired,
            ),
    {
        Message::query_for(
            DomainName::new(domain_name),
            record_type,
            authoritative,
            recursion_desired,
        )
    }

    /// A query with a fresh random id and a single question of class `IN`
    /// about `name`.
    pub fn query_for(
        name: DomainName,
        record_type: QType,
        authoritative: bool,
        recursion_desired: bool,
    ) -> (m: Self)
        ensures
            m.header == Header::spec_new(
                m.header.id,
                Header::spec_query_flags(0, authoritative, recursion_desired),
            ),
            m@.questions == seq![
                QuestionView { qname: name@, qtype: record_type, qclass: QClass::IN },
            ],
            m@.answers == Seq::<RecordView>::empty(),
            m@.authorities == Seq::<RecordView>::empty(),
            m@.additionals == Seq::<RecordView>::empty(),
    {
        let header = match Header::gen_query_header(0, authoritative, recursion_desired) {
            Ok(header) => header,
            Err(_) => {
                proof {
                    assert(false);
                }
                Header::new(0, header::HeaderFlags::default())
            },
        };
        Message::with_header(header, name, record_type)
    }

    /// The message of one question of class `IN` and of no record under
    /// `header`.
    pub fn with_header(header: Header, name: DomainName, record_type: QType) -> (m: Self)
        ensures
            m.header == header,
            m@.questions == seq![
                QuestionView { qname: name@, qtype: record_type, qclass: QClass::IN },
            ],
            m@.answers == Seq::<RecordView>::empty(),
            m@.authorities == Seq::<RecordView>::empty(),
            m@.additionals == Seq::<RecordView>::empty(),
    {
        let question = Question { qname: name, qtype: record_type, qclass: QClass::IN };
        let m = Message {
            header,
            questions: vec![question],
            answers: Vec::new(),
            authorities: Vec::new(),
            additionals: Vec::new(),
        };
        assert(m@.questions =~= seq![
            QuestionView { qname: name@, qtype: record_type, qclass: QClass::IN },
        ]);
        assert(m@.answers =~= Seq::<RecordView>::empty());
        assert(m@.authorities =~= Seq::<RecordView>::empty());
        assert(m@.additionals =~= Seq::<RecordView>::empty());
        m
    }

    /// Whether the message is one that `query_into_bytes` encodes: a single
    /// question whose name has an encoding, and no record, under a header
    /// that counts just these.
    pub open spec fn spec_is_query(&self) -> bool {
        spec_query_shape(self@) && spec_encodable(self@.questions[0].qname)
    }

    /// Whether the message is one that `query_into_bytes` encodes.
    pub fn is_query(&self) -> (b: bool)
        ensures
            b == self.spec_is_query(),
    {
        self.questions.len() == 1 && self.answers.len() == 0 && self.authorities.len() == 0
            && self.additionals.len() == 0 && self.header.num_questions == 1
            && self.header.num_answers == 0 && self.header.num_authorities == 0
            && self.header.num_additionals == 0 && self.header.flags.is_valid()
            && self.questions[0].qname.is_encodable()
    }

    /// Encodes a query: the header, then the single question. A message
    /// with records or with another number of questions is not encoded.
    pub fn query_into_bytes(self) -> (buf: Vec<u8>)
        requires
            self.spec_is_query(),
        ensures
            buf@ == encode_query(self@),
    {
        let mut buf = self.header.into_bytes();
        let mut question_bytes = self.questions[0].to_bytes();
        buf.append(&mut question_bytes);
        buf
    }

    /// Decodes a message at the cursor and steps over it. No part of a
    /// message is returned where any part of it fails; the cursor then
    /// stays where it was. In a message that was read each list is as long
    /// as the header says.
    pub fn from_bytes(bytes: &mut Cursor) -> (r: Result<Self>)
        ensures
            final(bytes).bytes == old(bytes).bytes,
            r.is_ok() ==> spec_counts_match(r.unwrap()@),
            match parse_message(old(bytes).bytes@, old(bytes).pos as int) {
                Ok((m, next)) => r.is_ok() && r.unwrap()@ == m && final(bytes).pos == next,
                Err(e) => r == Err::<Message, Error>(e) && final(bytes).pos == old(bytes).pos,
            },
    {
        proof {
            lemma_message_counts(bytes.bytes@, bytes.pos as int);
        }
        let start = bytes.pos;
        let header = match Header::from_bytes(bytes) {
            Ok(header) => header,
            Err(e) => {
                return Err(Error::Header(e));
            },
        };
        let questions = match read_questions(bytes, header.num_questions) {
            Ok(questions) => questions,
            Err(e) => {
                bytes.pos = start;
                return Err(Error::Question(e));
            },
        };
        let answers = match read_records(bytes, header.num_answers) {
            Ok(records) => records,
            Err(e) => {
                bytes.pos = start;
                return Err(Error::Record(e));
            },
        };
        let authorities = match read_records(bytes, header.num_authorities) {
            Ok(records) => records,
            Err(e) => {
                bytes.pos = start;
                return Err(Error::Record(e));
            },
        };
        let additionals = match read_records(bytes, header.num_additionals) {
            Ok(records) => records,
            Err(e) => {
                bytes.pos = start;
                return Err(Error::Record(e));
            },
        };
        Ok(Message { header, questions, answers, authorities, additionals })
    }

    /// Whether this message is a response to `query`: it has the response
    /// bit set and carries the id of the query.
    pub fn is_reply_to(&self, query: &Message) -> (b: bool)
        ensures
            b == (self.header.flags.query_response && self.header.id == query.header.id),
    {
        self.header.flags.query_response && self.header.id == query.header.id
    }

    /// The records of one section.
    pub fn get_records(&self, section: MsgSection) -> (records: &[Record])
        ensures
            records@.map_values(|r: Record| r@) == spec_section(self@, section),
    {
        match section {
            MsgSection::Answers => self.answers.as_slice(),
            MsgSection::Authorities => self.authorities.as_slice(),
            MsgSection::Additionals => self.additionals.as_slice(),
        }
    }

    /// The first record of type `qtype` in one section, if it holds any.
    pub fn get_record_by_type_from(&self, qtype: QType, section: MsgSection) -> (r: Option<
        &Record,
    >)
        ensures
            match r {
                Some(rec) => spec_first_of_type(spec_section(self@, section), qtype) == Some(
                    rec@,
                ),
                None => spec_first_of_type(spec_section(self@, section), qtype).is_none(),
            },
    {
        let records = self.get_records(section);
        let ghost views = records@.map_values(|r: Record| r@);
        let mut i: usize = 0;
        assert(views.skip(0) =~= views);
        while i < records.len()
            invariant
                i <= records.len(),
                views == records@.map_values(|r: Record| r@),
                views == spec_section(self@, section),
                spec_first_of_type(views.skip(i as int), qtype) == spec_first_of_type(
                    views,
                    qtype,
                ),
            decreases records.len() - i,
        {
            assert(views.skip(i as int).drop_first() =~= views.skip(i + 1));
            assert(views.skip(i as int)[0] == records@[i as int]@);
            if records[i].qtype == qtype {
                return Some(&records[i]);
            }
            i = i + 1;
        }
        None
    }
}

/// A query is read back from its encoding as it was, where the labels of
/// its name are each text of 1 to 63 octets and the name takes no more than
/// 255 octets on the wire.
pub proof fn lemma_query_round_trip(m: MessageView)
    requires
        spec_query_shape(m),
        crate::dname::spec_plain(m.questions[0].qname),
        crate::dname::encode_labels(m.questions[0].qname).len() <= 255,
    ensures
        parse_message(encode_query(m), 0) == Ok::<(MessageView, int), Error>(
            (m, encode_query(m).len() as int),
        ),
{
    let q = m.questions[0];
    let buf = encode_query(m);
    let none = Seq::<u8>::empty();
    assert(buf =~= none + m.header.spec_bytes() + encode_question(q));
    assert(buf =~= m.header.spec_bytes() + encode_question(q) + none);
    header::lemma_header_round_trip(none, m.header, encode_question(q));
    question::lemma_question_round_trip(m.header.spec_bytes(), q, none);
    assert(m.header.spec_bytes().len() == 12);
    assert(parse_questions(buf, 12, 0) == Ok::<(Seq<QuestionView>, int), question::Error>(
        (Seq::<QuestionView>::empty(), 12),
    ));
    assert(Seq::<QuestionView>::empty().push(q) =~= m.questions);
    assert(parse_questions(buf, 12, 1) == Ok::<(Seq<QuestionView>, int), question::Error>(
        (m.questions, buf.len() as int),
    ));
    assert(m.answers =~= Seq::<RecordView>::empty());
    assert(m.authorities =~= Seq::<RecordView>::empty());
    assert(m.additionals =~= Seq::<RecordView>::empty());
}

/// As many questions are read as were asked for.
pub proof fn lemma_questions_count(buf: Seq<u8>, pos: int, n: nat)
    ensures
        parse_questions(buf, pos, n).is_ok() ==> parse_questions(buf, pos, n).unwrap().0.len()
            == n,
    decreases n,
{
    if n > 0 {
        lemma_questions_count(buf, pos, (n - 1) as nat);
    }
}

/// As many records are read as were asked for.
pub proof fn lemma_records_count(buf: Seq<u8>, pos: int, n: nat)
    ensures
        parse_records(buf, pos, n).is_ok() ==> parse_records(buf, pos, n).unwrap().0.len() == n,
    decreases n,
{
    if n > 0 {
        lemma_records_count(buf, pos, (n - 1) as nat);
    }
}

/// In a message that was read, each list is as long as the header says.
pub proof fn lemma_message_counts(buf: Seq<u8>, pos: int)
    ensures
        match parse_message(buf, pos) {
            Ok((m, _)) => spec_counts_match(m),
            Err(_) => true,
        },
{
    match parse_header(buf, pos) {
        Ok((header, h_end)) => {
            lemma_questions_count(buf, h_end, header.num_questions as nat);
            match parse_questions(buf, h_end, header.num_questions as nat) {
                Ok((_, q_end)) => {
                    lemma_records_count(buf, q_end, header.num_answers as nat);
                    match parse_records(buf, q_end, header.num_answers as nat) {
                        Ok((_, an_end)) => {
                            lemma_records_count(buf, an_end, header.num_authorities as nat);
                            match parse_records(buf, an_end, header.num_authorities as nat) {
                                Ok((_, au_end)) => {
                                    lemma_records_count(buf, au_end, header.num_additionals as nat);
                                },
                                Err(_) => {},
                            }
                        },
                        Err(_) => {},
                    }
                },
                Err(_) => {},
            }
        },
        Err(_) => {},
    }
}

/// Once a question fails, reading more questions fails in the same way.
pub proof fn lemma_questions_error_stays(buf: Seq<u8>, pos: int, m: nat, n: nat)
    requires
        m <= n,
        parse_questions(buf, pos, m).is_err(),
    ensures
        parse_questions(buf, pos, n) == parse_questions(buf, pos, m),
    decreases n,
{
    if m < n {
        lemma_questions_error_stays(buf, pos, m, (n - 1) as nat);
    }
}

/// Once a record fails, reading more records fails in the same way.
pub proof fn lemma_records_error_stays(buf: Seq<u8>, pos: int, m: nat, n: nat)
    requires
        m <= n,
        parse_records(buf, pos, m).is_err(),
    ensures
        parse_records(buf, pos, n) == parse_records(buf, pos, m),
    decreases n,
{
    if m < n {
        lemma_records_error_stays(buf, pos, m, (n - 1) as nat);
    }
}

/// Cutting a buffer short changes what is read of a list of questions in
/// one way only: the reading may fail for want of octets.
pub proof fn lemma_questions_prefix(buf: Seq<u8>, k: int, pos: int, n: nat)
    requires
        0 <= k <= buf.len(),
    ensures
        parse_questions(buf.take(k), pos, n) == parse_questions(buf, pos, n) || match parse_questions(
            buf.take(k),
            pos,
            n,
        ) {
            Err(e) => e.spec_is_truncated(),
            Ok(_) => false,
        },
    decreases n,
{
    if n > 0 {
        lemma_questions_prefix(buf, k, pos, (n - 1) as nat);
        match parse_questions(buf.take(k), pos, (n - 1) as nat) {
            Ok((_, at)) => {
                question::lemma_question_prefix(buf, k, at);
            },
            Err(_) => {},
        }
    }
}

/// Cutting a buffer short changes what is read of a list of records in one
/// way only: the reading may fail for want of octets.
pub proof fn lemma_records_prefix(buf: Seq<u8>, k: int, pos: int, n: nat)
    requires
        0 <= k <= buf.len(),
    ensures
        parse_records(buf.take(k), pos, n) == parse_records(buf, pos, n) || match parse_records(
            buf.take(k),
            pos,
            n,
        ) {
            Err(e) => e.spec_is_truncated(),
            Ok(_) => false,
        },
    decreases n,
{
    if n > 0 {
        lemma_records_prefix(buf, k, pos, (n - 1) as nat);
        match parse_records(buf.take(k), pos, (n - 1) as nat) {
            Ok((_, at)) => {
                record::lemma_record_prefix(buf, k, at);
            },
            Err(_) => {},
        }
    }
}

/// Questions that were read end within the buffer where `pos` lies in it.
pub proof fn lemma_questions_within(buf: Seq<u8>, pos: int, n: nat)
    requires
        0 <= pos <= buf.len(),
    ensures
        parse_questions(buf, pos, n).is_ok() ==> pos <= parse_questions(buf, pos, n).unwrap().1
            <= buf.len(),
    decreases n,
{
    if n > 0 {
        lemma_questions_within(buf, pos, (n - 1) as nat);
        match parse_questions(buf, pos, (n - 1) as nat) {
            Ok((_, at)) => {
                question::lemma_question_within(buf, at);
            },
            Err(_) => {},
        }
    }
}

/// Records that were read end within the buffer where `pos` lies in it.
pub proof fn lemma_records_within(buf: Seq<u8>, pos: int, n: nat)
    requires
        0 <= pos <= buf.len(),
    ensures
        parse_records(buf, pos, n).is_ok() ==> pos <= parse_records(buf, pos, n).unwrap().1
            <= buf.len(),
    decreases n,
{
    if n > 0 {
        lemma_records_within(buf, pos, (n - 1) as nat);
        match parse_records(buf, pos, (n - 1) as nat) {
            Ok((_, at)) => {
                record::lemma_record_within(buf, at);
            },
            Err(_) => {},
        }
    }
}

/// A message that was read ends within the buffer, behind where it began.
pub proof fn lemma_message_within(buf: Seq<u8>, pos: int)
    ensures
        parse_message(buf, pos).is_ok() ==> 0 <= pos < parse_message(buf, pos).unwrap().1
            <= buf.len(),
{
    match parse_header(buf, pos) {
        Ok((header, h_end)) => {
            lemma_questions_within(buf, h_end, header.num_questions as nat);
            match parse_questions(buf, h_end, header.num_questions as nat) {
                Ok((_, q_end)) => {
                    lemma_records_within(buf, q_end, header.num_answers as nat);
                    match parse_records(buf, q_end, header.num_answers as nat) {
                        Ok((_, an_end)) => {
                            lemma_records_within(buf, an_end, header.num_authorities as nat);
                            match parse_records(buf, an_end, header.num_authorities as nat) {
                                Ok((_, au_end)) => {
                                    lemma_records_within(buf, au_end, header.num_additionals as nat);
                                },
                                Err(_) => {},
                            }
                        },
                        Err(_) => {},
                    }
                },
                Err(_) => {},
            }
        },
        Err(_) => {},
    }
}

/// Cutting a buffer short changes what is read of a message in one way
/// only: the reading may fail for want of octets.
pub proof fn lemma_message_prefix(buf: Seq<u8>, k: int, pos: int)
    requires
        0 <= k <= buf.len(),
    ensures
        parse_message(buf.take(k), pos) == parse_message(buf, pos) || match parse_message(
            buf.take(k),
            pos,
        ) {
            Err(e) => e.spec_is_truncated(),
            Ok(_) => false,
        },
{
    let cut = buf.take(k);
    match parse_header(cut, pos) {
        Ok((header, h_end)) => {
            lemma_questions_prefix(buf, k, h_end, header.num_questions as nat);
            match parse_questions(cut, h_end, header.num_questions as nat) {
                Ok((_, q_end)) => {
                    lemma_records_prefix(buf, k, q_end, header.num_answers as nat);
                    match parse_records(cut, q_end, header.num_answers as nat) {
                        Ok((_, an_end)) => {
                            lemma_records_prefix(buf, k, an_end, header.num_authorities as nat);
                            match parse_records(cut, an_end, header.num_authorities as nat) {
                                Ok((_, au_end)) => {
                                    lemma_records_prefix(
                                        buf,
                                        k,
                                        au_end,
                                        header.num_additionals as nat,
                                    );
                                },
                                Err(_) => {},
                            }
                        },
                        Err(_) => {},
                    }
                },
                Err(_) => {},
            }
        },
        Err(_) => {},
    }
}

/// A buffer that holds a message, cut short anywhere before the end of the
/// message, no longer holds one: reading it fails, and the error says that
/// the buffer ended too early.
pub proof fn lemma_truncated_message_fails(buf: Seq<u8>, pos: int, k: int)
    requires
        parse_message(buf, pos).is_ok(),
        0 <= k < parse_message(buf, pos).unwrap().1,
    ensures
        match parse_message(buf.take(k), pos) {
            Err(e) => e.spec_is_truncated(),
            Ok(_) => false,
        },
{
    lemma_message_within(buf, pos);
    lemma_message_prefix(buf, k, pos);
    lemma_message_within(buf.take(k), pos);
}

} // verus!
