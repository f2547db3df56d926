use dirt::cursor::Cursor;
use dirt::dname::{DomainName, Label};
use dirt::header::{DnsHeader, Header, HeaderFlags};
use dirt::message::Message;
use dirt::qclass::QClass;
use dirt::qtype::QType;
use dirt::query::Query;
use dirt::question::Question;
use dirt::record::Record;

const WWW_EXAMPLE_RESPONSE: &[u8] = b"`V\x81\x80\x00\x01\x00\x01\x00\x00\x00\x00\x03www\x07example\x03com\x00\x00\x01\x00\x01\xc0\x0c\x00\x01\x00\x01\x00\x00R\x9b\x00\x04]\xb8\xd8\"";

fn hex(bytes: &[u8]) -> String {
    let mut text = String::new();
    for byte in bytes {
        text.push_str(&format!("{byte:02x}"));
    }
    text
}

/// Tests encoding of "google.com"
#[test]
fn encode_dname() {
    let correct_bytes = b"\x06google\x03com\x00";

    let google_domain = DomainName::new("google.com");
    let result_bytes = google_domain.into_bytes();

    assert_eq!(result_bytes, correct_bytes);
}

/// Tests decoding of "google.com"
#[test]
fn decode_dname() {
    let correct_dname = DomainName::new("google.com");
    let mut google_domain_bytes = Cursor::new(&b"\x06google\x03com\x00"[..]);

    let result_dname = DomainName::from_bytes(&mut google_domain_bytes).unwrap();

    assert_eq!(result_dname, correct_dname);
}

#[test]
fn dname_encode_dname() {
    let correct_bytes = b"\x06google\x03com\x00";

    let google_domain = DomainName::new("google.com");
    let result_bytes = google_domain.encode_dns_name();

    assert_eq!(result_bytes, correct_bytes);
}

#[test]
fn dname_decode_dname() {
    let correct_dname = DomainName::new("google.com");
    let mut google_domain_bytes = Cursor::new(&b"\x06google\x03com\x00"[..]);

    let result_dname = DomainName::from_bytes(&mut google_domain_bytes).unwrap();

    assert_eq!(result_dname, correct_dname);
    assert_eq!(google_domain_bytes.position(), 12);
    assert_eq!(
        result_dname,
        DomainName(vec![
            Label::new("google".to_string()),
            Label::new("com".to_string())
        ])
    );
}

#[test]
fn encode_header() {
    let header = Header {
        id: 0x1314,
        flags: HeaderFlags::default(),
        num_questions: 1,
        num_answers: 0,
        num_authorities: 0,
        num_additionals: 0,
    };

    let header_bytes = header.into_bytes();

    let correct_bytes: Vec<u8> =
        vec![0x13, 0x14, 0x0, 0x0, 0x0, 0x1, 0x0, 0x0, 0x0, 0x0, 0x0, 0x0];

    assert_eq!(header_bytes, correct_bytes);
}

#[test]
fn header_encode_header() {
    let header = DnsHeader {
        id: 0x1314,
        flags: 0,
        num_questions: 1,
        num_answers: 0,
        num_authorities: 0,
        num_additionals: 0,
    };

    let header_bytes = header.to_bytes();

    let correct_bytes: Vec<u8> =
        vec![0x13, 0x14, 0x0, 0x0, 0x0, 0x1, 0x0, 0x0, 0x0, 0x0, 0x0, 0x0];

    assert_eq!(header_bytes, correct_bytes);
}

#[test]
fn decode_header() {
    let test_bytes = vec![
        0x82, 0x98, // id
        0x01, 0x00, // flags
        0x00, 0x01, // n_q
        0x00, 0x00, // n_ans
        0x00, 0x00, // n_auth
        0x00, 0x00, // n_add
    ];

    let expected_id = 0x8298;

    // recursion desired
    let expected_flags: u16 = 1 << 8;

    let expected_header =
        Header::new(expected_id, HeaderFlags::try_from(expected_flags).unwrap());

    let result_header = Header::from_bytes(&mut Cursor::new(&test_bytes)).unwrap();

    assert_eq!(result_header, expected_header);
}

#[test]
fn header_decode_header() {
    let test_bytes = vec![
        0x82, 0x98, // id
        0x01, 0x00, // flags
        0x00, 0x01, // n_q
        0x00, 0x00, // n_ans
        0x00, 0x00, // n_auth
        0x00, 0x00, // n_add
    ];

    let expected_id = 0x8298;

    // recursion desired
    let expected_flags: u16 = 1 << 8;

    let result_header = Header::from_bytes(&mut Cursor::new(&test_bytes)).unwrap();

    assert_eq!(result_header.id, expected_id);
    assert_eq!(result_header.flags.as_u16(), expected_flags);
    assert_eq!(result_header.num_questions, 1);
    assert_eq!(result_header.num_answers, 0);
    assert_eq!(result_header.num_authorities, 0);
    assert_eq!(result_header.num_additionals, 0);
}

#[test]
fn encode_question() {
    let question = Question {
        qname: DomainName::new("google.com"),
        qclass: QClass::IN,
        qtype: QType::A,
    };

    let correct_bytes = b"\x06google\x03com\x00\x00\x01\x00\x01";
    let result_bytes = question.into_bytes();

    assert_eq!(result_bytes, correct_bytes);
}

#[test]
fn question_encode_question() {
    let question = Question {
        qname: DomainName::new("google.com"),
        qclass: QClass::IN,
        qtype: QType::A,
    };

    let correct_bytes = b"\x06google\x03com\x00\x00\x01\x00\x01";
    let result_bytes = question.to_bytes();

    assert_eq!(result_bytes, correct_bytes);
}

#[test]
fn decode_question() {
    let correct_question = Question {
        qname: DomainName::new("google.com"),
        qclass: QClass::IN,
        qtype: QType::A,
    };

    let mut bytes = Cursor::new(&b"\x06google\x03com\x00\x00\x01\x00\x01"[..]);
    let result_question = Question::from_bytes(&mut bytes).unwrap();

    assert_eq!(result_question, correct_question);
}

#[test]
fn question_decode_question() {
    let correct_question = Question {
        qname: DomainName::new("google.com"),
        qclass: QClass::IN,
        qtype: QType::A,
    };

    let mut bytes = Cursor::new(&b"\x06google\x03com\x00\x00\x01\x00\x01"[..]);
    let result_question = Question::from_bytes(&mut bytes).unwrap();

    assert_eq!(result_question.qname, correct_question.qname);
    assert_eq!(result_question.qtype, correct_question.qtype);
    assert_eq!(result_question.qclass, correct_question.qclass);
}

#[test]
fn decode_record() {
    let record_bytes = WWW_EXAMPLE_RESPONSE;
    let correct_record = Record {
        name: DomainName::new("www.example.com"),
        qtype: QType::A,
        class: QClass::IN,
        time_to_live: 21147,
        rdata: b"]\xb8\xd8\"".to_vec(),
    };

    let mut rec_bytes_reader = Cursor::new(&record_bytes[..]);
    let hdr = Header::from_bytes(&mut rec_bytes_reader).unwrap();
    println!("header: {hdr:?}");
    let q = Question::from_bytes(&mut rec_bytes_reader).unwrap();
    println!("question: {q:?}");
    let result_record = Record::from_bytes(&mut rec_bytes_reader).unwrap();
    println!("record: {result_record:?}");

    assert_eq!(result_record, correct_record);
}

#[test]
fn record_decode_record() {
    let record_bytes = WWW_EXAMPLE_RESPONSE;
    let correct_record = Record {
        name: DomainName::new("www.example.com"),
        qtype: QType::A,
        class: QClass::IN,
        time_to_live: 21147,
        rdata: b"]\xb8\xd8\"".to_vec(),
    };

    let mut rec_bytes_reader = Cursor::new(&record_bytes[..]);
    let hdr = Header::from_bytes(&mut rec_bytes_reader).unwrap();
    println!("{hdr:?}");
    let q = Question::from_bytes(&mut rec_bytes_reader).unwrap();
    println!("{q:?}");
    let result_record = Record::from_bytes(&mut rec_bytes_reader).unwrap();

    assert_eq!(result_record, correct_record);
    assert_eq!(rec_bytes_reader.position(), record_bytes.len());
}

// endianness clarification: 7th MSB of the 3rd octet is 9 bits away from bit 15.
const RECURSION_DESIRED: u16 = 1 << 8;

#[test]
fn test_build_query() {
    let correct_bytes_str = "82980100000100000000000003777777076578616d706c6503636f6d0000010001";
    let query = Query::new("www.example.com", QType::A, RECURSION_DESIRED);
    let query_bytes = query.into_bytes();

    let query_bytes_str = hex(&query_bytes);

    // Skip first 2 bytes (random id)
    // 2 chars per byte as formatted above --> 4 chars to skip
    assert_eq!(
        query_bytes_str[4..],
        correct_bytes_str[4..],
        "Byte value mismatch"
    );
}

#[test]
fn lib_test_build_query() {
    let correct_bytes_str = "82980100000100000000000003777777076578616d706c6503636f6d0000010001";
    let query = Query::with_id(0x8298, "www.example.com", QType::A, RECURSION_DESIRED);
    assert_eq!(hex(&query.into_bytes()), correct_bytes_str, "Byte value mismatch");
}

#[test]
fn query_under_a_given_id() {
    let correct_bytes_str = "82980100000100000000000003777777076578616d706c6503636f6d0000010001";
    let mut flags = HeaderFlags::default();
    let header = Header::new(0x8298, flags.set_recursion_desired(true).finalize());
    let query = Message::with_header(header, DomainName::new("www.example.com"), QType::A);
    assert_eq!(hex(&query.query_into_bytes()), correct_bytes_str);
}

#[test]
fn main_test_build_query() {
    let correct_bytes_str = "82980100000100000000000003777777076578616d706c6503636f6d0000010001";
    let query = Message::new_query("www.example.com", QType::A, false, true);
    let query_bytes = query.query_into_bytes();

    let query_bytes_str = hex(&query_bytes);

    // Skip first 2 bytes (random id)
    // 2 chars per byte as formatted above --> 4 chars to skip
    assert_eq!(
        query_bytes_str[4..],
        correct_bytes_str[4..],
        "Byte value mismatch"
    );
}
