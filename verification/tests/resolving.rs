use dirt::dname::DomainName;
use dirt::header::{Error as HeaderError, Header, HeaderFlags};
use dirt::message::{Error as MessageError, Message, MsgSection};
use dirt::qclass::QClass;
use dirt::qtype::QType;
use dirt::record::{IpAddress, Record};
use dirt::resolver::{
    decide, offered, root_hint, Decision, Lookup, ResolveError, Resolver, Step, MAX_ATTEMPTS,
    MAX_HOPS, ROOT_SERVER,
};

const ROOT: IpAddress = IpAddress::V4(0xc629_0004);

fn record(name: &str, qtype: QType, rdata: &[u8]) -> Record {
    Record {
        name: DomainName::new(name),
        qtype,
        class: QClass::IN,
        time_to_live: 300,
        rdata: rdata.to_vec(),
    }
}

fn response(answers: Vec<Record>, authorities: Vec<Record>, additionals: Vec<Record>) -> Message {
    Message {
        header: Header {
            id: 1,
            flags: HeaderFlags { query_response: true, ..HeaderFlags::default() },
            num_questions: 0,
            num_answers: answers.len() as u16,
            num_authorities: authorities.len() as u16,
            num_additionals: additionals.len() as u16,
        },
        questions: vec![],
        answers,
        authorities,
        additionals,
    }
}

#[test]
fn resolution_starts_at_the_root() {
    assert_eq!(ROOT_SERVER, 0xc629_0004);
    assert_eq!(root_hint(), ROOT);
    assert_eq!(root_hint(), IpAddress::V4(u32::from_be_bytes([198, 41, 0, 4])));
    let resolver = Resolver::new("example.com", QType::A);
    assert_eq!(
        resolver,
        Resolver {
            pending: vec![Lookup {
                name: DomainName::new("example.com"),
                qtype: QType::A,
                nameserver: ROOT
            }],
            hops: 0,
            attempts: 0,
        }
    );
    assert!(!resolver.is_finished());
    assert_eq!(resolver.nameserver(), Some(ROOT));
    // a lookup of an IPv6 address starts at the same server
    assert_eq!(Resolver::new("example.com", QType::AAAA).nameserver(), Some(ROOT));
    assert_eq!(Resolver::new("example.com", QType::MX).nameserver(), Some(ROOT));
}

#[test]
fn query_asks_for_the_current_lookup_without_recursion() {
    let resolver = Resolver::new("example.com", QType::A);
    let query = resolver.next_query().unwrap();
    assert!(query.is_query());
    let bytes = query.query_into_bytes();
    assert_eq!(
        &bytes[2..],
        b"\x00\x00\x00\x01\x00\x00\x00\x00\x00\x00\x07example\x03com\x00\x00\x01\x00\x01"
    );
}

#[test]
fn glue_switches_the_name_server() {
    let mut resolver = Resolver::new("example.com", QType::A);
    let referral = response(
        vec![],
        vec![],
        vec![record("a.gtld-servers.net", QType::A, &[192, 5, 6, 30])],
    );
    assert_eq!(decide(QType::A, &referral), Decision::Glue(IpAddress::V4(0xc005_061e)));
    assert_eq!(resolver.on_response(&referral), Step::Continue);
    assert!(!resolver.is_finished());
    assert_eq!(resolver.nameserver(), Some(IpAddress::V4(0xc005_061e)));
    assert_eq!(resolver.pending.len(), 1);
    assert_eq!(resolver.pending[0].name, DomainName::new("example.com"));
    assert_eq!(resolver.pending[0].qtype, QType::A);
    assert_eq!(resolver.hops, 1);
}

#[test]
fn answer_ends_the_resolution() {
    let mut resolver = Resolver::new("example.com", QType::A);
    let answer = response(vec![record("example.com", QType::A, &[93, 184, 216, 34])], vec![], vec![]);
    assert_eq!(decide(QType::A, &answer), Decision::Answer(IpAddress::V4(0x5db8_d822)));
    assert_eq!(resolver.on_response(&answer), Step::Resolved(IpAddress::V4(0x5db8_d822)));
    assert!(resolver.is_finished());
    assert_eq!(resolver.nameserver(), None);
    assert_eq!(resolver.next_query(), None);
    assert_eq!(resolver.on_response(&answer), Step::Failed(ResolveError::Finished));
    assert_eq!(resolver.on_timeout(), Step::Failed(ResolveError::Finished));
}

#[test]
fn alias_restarts_from_the_root() {
    let mut resolver = Resolver::new("www.example.com", QType::A);
    let glue = response(vec![], vec![], vec![record("ns", QType::A, &[10, 0, 0, 1])]);
    assert_eq!(resolver.on_response(&glue), Step::Continue);
    assert_eq!(resolver.nameserver(), Some(IpAddress::V4(0x0a00_0001)));
    let alias = response(vec![record("www.example.com", QType::CNAME, b"example.com")], vec![], vec![]);
    assert_eq!(decide(QType::A, &alias), Decision::Alias(DomainName::new("example.com")));
    assert_eq!(resolver.on_response(&alias), Step::Continue);
    assert_eq!(
        resolver.pending,
        vec![Lookup { name: DomainName::new("example.com"), qtype: QType::A, nameserver: ROOT }]
    );
    assert_eq!(resolver.hops, 2);
    let query = resolver.next_query().unwrap();
    assert_eq!(query.questions[0].qname, DomainName::new("example.com"));
    assert_eq!(query.questions[0].qtype, QType::A);
}

#[test]
fn referral_looks_the_name_server_up_first() {
    let mut resolver = Resolver::new("example.com", QType::A);
    let glue = response(vec![], vec![], vec![record("ns", QType::A, &[10, 0, 0, 1])]);
    assert_eq!(resolver.on_response(&glue), Step::Continue);
    let referral = response(vec![], vec![record("example.com", QType::NS, b"ns1.example.com")], vec![]);
    assert_eq!(decide(QType::A, &referral), Decision::Referral(DomainName::new("ns1.example.com")));
    assert_eq!(resolver.on_response(&referral), Step::Continue);
    assert_eq!(
        resolver.pending,
        vec![
            Lookup {
                name: DomainName::new("example.com"),
                qtype: QType::A,
                nameserver: IpAddress::V4(0x0a00_0001)
            },
            Lookup { name: DomainName::new("ns1.example.com"), qtype: QType::A, nameserver: ROOT },
        ]
    );
    assert_eq!(resolver.hops, 2);
    assert_eq!(resolver.nameserver(), Some(ROOT));
    let query = resolver.next_query().unwrap();
    assert_eq!(query.questions[0].qname, DomainName::new("ns1.example.com"));
    // the nested lookup finds the address; the outer lookup goes on with it
    let nested = response(vec![record("ns1.example.com", QType::A, &[10, 9, 8, 7])], vec![], vec![]);
    assert_eq!(resolver.on_response(&nested), Step::Continue);
    assert_eq!(
        resolver.pending,
        vec![Lookup {
            name: DomainName::new("example.com"),
            qtype: QType::A,
            nameserver: IpAddress::V4(0x0a09_0807)
        }]
    );
    let answer = response(vec![record("example.com", QType::A, &[93, 184, 216, 34])], vec![], vec![]);
    assert_eq!(resolver.on_response(&answer), Step::Resolved(IpAddress::V4(0x5db8_d822)));
}

#[test]
fn name_server_of_an_ipv6_lookup_is_looked_up_as_ipv4() {
    let mut resolver = Resolver::new("example.com", QType::AAAA);
    let referral = response(vec![], vec![record("example.com", QType::NS, b"ns1.example.com")], vec![]);
    assert_eq!(resolver.on_response(&referral), Step::Continue);
    assert_eq!(resolver.pending[1].qtype, QType::A);
    assert_eq!(resolver.pending[1].nameserver, ROOT);
    let alias = response(vec![record("ns1.example.com", QType::CNAME, b"ns2.example.com")], vec![], vec![]);
    assert_eq!(resolver.on_response(&alias), Step::Continue);
    assert_eq!(resolver.pending[1].name, DomainName::new("ns2.example.com"));
    assert_eq!(resolver.pending[1].qtype, QType::A);
    assert_eq!(resolver.pending.len(), 2);
    assert_eq!(resolver.hops, 2);
}

#[test]
fn sections_are_asked_in_order() {
    let a = record("x", QType::A, &[1, 1, 1, 1]);
    let glue = record("y", QType::A, &[2, 2, 2, 2]);
    let ns = record("x", QType::NS, b"ns.x");
    let cname = record("x", QType::CNAME, b"z");
    let all = response(vec![cname.clone(), a.clone()], vec![ns.clone()], vec![glue.clone()]);
    assert_eq!(decide(QType::A, &all), Decision::Answer(IpAddress::V4(0x0101_0101)));
    let no_answer = response(vec![cname.clone()], vec![ns.clone()], vec![glue.clone()]);
    assert_eq!(decide(QType::A, &no_answer), Decision::Glue(IpAddress::V4(0x0202_0202)));
    let no_glue = response(vec![cname.clone()], vec![ns.clone()], vec![]);
    assert_eq!(decide(QType::A, &no_glue), Decision::Referral(DomainName::new("ns.x")));
    let only_alias = response(vec![cname.clone()], vec![], vec![]);
    assert_eq!(decide(QType::A, &only_alias), Decision::Alias(DomainName::new("z")));
    // glue of another type does not count
    let other_glue = response(vec![], vec![ns], vec![glue]);
    assert_eq!(decide(QType::AAAA, &other_glue), Decision::Referral(DomainName::new("ns.x")));
    // the first of two answers counts
    let two = response(vec![a, record("x", QType::A, &[3, 3, 3, 3])], vec![], vec![]);
    assert_eq!(decide(QType::A, &two), Decision::Answer(IpAddress::V4(0x0101_0101)));
}

#[test]
fn response_without_a_way_forward_is_an_error() {
    let empty = response(vec![], vec![], vec![]);
    assert_eq!(decide(QType::A, &empty), Decision::NoUsableAnswer);
    let mut resolver = Resolver::new("example.com", QType::A);
    assert_eq!(resolver.on_response(&empty), Step::Failed(ResolveError::NoUsableAnswer));
    assert!(resolver.is_finished());
    // an answer of the type asked for that holds no address
    let short = response(vec![record("x", QType::A, &[1, 2])], vec![], vec![]);
    assert_eq!(decide(QType::A, &short), Decision::NoUsableAnswer);
    let text = response(vec![record("x", QType::TXT, b"hello")], vec![], vec![]);
    assert_eq!(decide(QType::TXT, &text), Decision::NoUsableAnswer);
    let soa = response(vec![], vec![record("x", QType::SOA, b"")], vec![]);
    assert_eq!(decide(QType::A, &soa), Decision::NoUsableAnswer);
}

#[test]
fn hops_are_capped() {
    assert_eq!(MAX_HOPS, 30);
    let alias = response(vec![record("a", QType::CNAME, b"a")], vec![], vec![]);
    let mut resolver = Resolver::new("a", QType::A);
    for hop in 1..=MAX_HOPS {
        assert_eq!(resolver.on_response(&alias), Step::Continue);
        assert_eq!(resolver.hops, hop);
    }
    assert_eq!(resolver.on_response(&alias), Step::Failed(ResolveError::TooManyHops));
    assert!(resolver.is_finished());
    let referral = response(vec![], vec![record("a", QType::NS, b"ns.a")], vec![]);
    let mut resolver = Resolver::new("a", QType::A);
    for hop in 1..=MAX_HOPS {
        assert_eq!(resolver.on_response(&referral), Step::Continue);
        assert_eq!(resolver.pending.len(), hop as usize + 1);
    }
    assert_eq!(resolver.on_response(&referral), Step::Failed(ResolveError::TooManyHops));
    assert!(resolver.is_finished());
    assert_eq!(resolver.hops, MAX_HOPS);
    let glue = response(vec![], vec![], vec![record("ns", QType::A, &[10, 0, 0, 1])]);
    let mut resolver = Resolver::new("a", QType::A);
    let mut responses = 0;
    while resolver.on_response(&glue) == Step::Continue {
        responses += 1;
    }
    assert_eq!(responses, MAX_HOPS);
    assert!(resolver.is_finished());
}

#[test]
fn resolution_takes_a_bounded_number_of_responses() {
    // referrals as long as they are followed, then answers for each lookup
    let referral = response(vec![], vec![record("a", QType::NS, b"ns.a")], vec![]);
    let answer = response(vec![record("a", QType::A, &[1, 2, 3, 4])], vec![], vec![]);
    let mut resolver = Resolver::new("a", QType::A);
    let mut responses = 0;
    while resolver.hops < MAX_HOPS {
        assert_eq!(resolver.on_response(&referral), Step::Continue);
        responses += 1;
    }
    loop {
        responses += 1;
        match resolver.on_response(&answer) {
            Step::Continue => {}
            step => {
                assert_eq!(step, Step::Resolved(IpAddress::V4(0x0102_0304)));
                break;
            }
        }
    }
    assert_eq!(responses, 2 * MAX_HOPS + 1);
}

#[test]
fn silent_server_is_asked_again_and_then_given_up() {
    assert_eq!(MAX_ATTEMPTS, 3);
    let mut resolver = Resolver::new("example.com", QType::A);
    assert_eq!(resolver.on_timeout(), Step::Continue);
    assert_eq!(resolver.attempts, 1);
    assert_eq!(resolver.on_timeout(), Step::Continue);
    assert_eq!(resolver.attempts, 2);
    // a response ends the count
    let glue = response(vec![], vec![], vec![record("ns", QType::A, &[10, 0, 0, 1])]);
    assert_eq!(resolver.on_response(&glue), Step::Continue);
    assert_eq!(resolver.attempts, 0);
    assert_eq!(resolver.on_timeout(), Step::Continue);
    assert_eq!(resolver.on_timeout(), Step::Continue);
    assert_eq!(resolver.on_timeout(), Step::Failed(ResolveError::TimedOut));
    assert!(resolver.is_finished());
}

#[test]
fn decision_is_applied_to_the_state() {
    let mut resolver = Resolver { pending: vec![], hops: 4, attempts: 1 };
    assert_eq!(resolver.apply(Decision::NoUsableAnswer), Step::Failed(ResolveError::Finished));
    assert_eq!(resolver, Resolver { pending: vec![], hops: 4, attempts: 1 });
    let mut resolver = Resolver::new("example.com", QType::AAAA);
    assert_eq!(resolver.apply(Decision::Glue(IpAddress::V6(7))), Step::Continue);
    assert_eq!(resolver.nameserver(), Some(IpAddress::V6(7)));
    assert_eq!(resolver.apply(Decision::Answer(IpAddress::V6(9))), Step::Resolved(IpAddress::V6(9)));
    assert!(resolver.is_finished());
}

const WWW_EXAMPLE_RESPONSE: &[u8] = b"`V\x81\x80\x00\x01\x00\x01\x00\x00\x00\x00\x03www\x07example\x03com\x00\x00\x01\x00\x01\xc0\x0c\x00\x01\x00\x01\x00\x00R\x9b\x00\x04]\xb8\xd8\"";

#[test]
fn datagram_with_the_answer_ends_the_resolution() {
    let mut resolver = Resolver::new("www.example.com", QType::A);
    assert_eq!(
        resolver.on_datagram(0x6056, WWW_EXAMPLE_RESPONSE),
        Some(Step::Resolved(IpAddress::V4(0x5db8_d822)))
    );
    assert!(resolver.is_finished());
    assert_eq!(
        resolver.on_datagram(0x6056, WWW_EXAMPLE_RESPONSE),
        Some(Step::Failed(ResolveError::Finished))
    );
}

#[test]
fn datagram_that_is_no_reply_is_passed_over() {
    let mut resolver = Resolver::new("www.example.com", QType::A);
    let fresh = resolver.clone();
    // another id
    assert_eq!(resolver.on_datagram(0x6057, WWW_EXAMPLE_RESPONSE), None);
    assert_eq!(resolver, fresh);
    // a query, not a response
    let query = resolver.next_query().unwrap();
    let id = query.header.id;
    assert_eq!(resolver.on_datagram(id, &query.query_into_bytes()), None);
    assert_eq!(resolver, fresh);
}

#[test]
fn datagram_that_is_no_message_ends_the_resolution() {
    let mut resolver = Resolver::new("www.example.com", QType::A);
    assert_eq!(
        resolver.on_datagram(0x6056, &WWW_EXAMPLE_RESPONSE[..40]),
        Some(Step::Failed(ResolveError::Decode(MessageError::Record(
            dirt::record::Error::Truncated
        ))))
    );
    assert!(resolver.is_finished());
    let mut resolver = Resolver::new("www.example.com", QType::A);
    assert_eq!(
        resolver.on_datagram(0, b""),
        Some(Step::Failed(ResolveError::Decode(MessageError::Header(HeaderError::Truncated))))
    );
}

#[test]
fn record_without_an_address_is_neither_answer_nor_glue() {
    let ns = record("example.com", QType::NS, b"ns1.example.com");
    let cname = record("example.com", QType::CNAME, b"example.org");
    let mx = record("example.com", QType::MX, b"\x00\x0a\x04mail\x00");
    // a lookup of mail exchanges: the record of that type among the
    // additionals is no glue, and the referral is followed
    let referral = response(vec![], vec![ns.clone()], vec![mx.clone()]);
    assert_eq!(offered(&referral, QType::MX, MsgSection::Additionals), None);
    assert_eq!(
        decide(QType::MX, &referral),
        Decision::Referral(DomainName::new("ns1.example.com"))
    );
    let mut resolver = Resolver::new("example.com", QType::MX);
    assert_eq!(resolver.on_response(&referral), Step::Continue);
    assert_eq!(
        resolver.pending,
        vec![
            Lookup { name: DomainName::new("example.com"), qtype: QType::MX, nameserver: ROOT },
            Lookup { name: DomainName::new("ns1.example.com"), qtype: QType::A, nameserver: ROOT },
        ]
    );
    // the record of that type among the answers is no address either
    let answered = response(vec![mx.clone()], vec![ns.clone()], vec![]);
    assert_eq!(
        decide(QType::MX, &answered),
        Decision::Referral(DomainName::new("ns1.example.com"))
    );
    // a lookup of aliases follows the alias
    let alias = response(vec![cname.clone()], vec![], vec![]);
    assert_eq!(decide(QType::CNAME, &alias), Decision::Alias(DomainName::new("example.org")));
    let mut resolver = Resolver::new("example.com", QType::CNAME);
    assert_eq!(resolver.on_response(&alias), Step::Continue);
    assert_eq!(
        resolver.pending,
        vec![Lookup { name: DomainName::new("example.org"), qtype: QType::CNAME, nameserver: ROOT }]
    );
    // a lookup of name servers follows the referral
    assert_eq!(
        decide(QType::NS, &response(vec![], vec![ns.clone()], vec![])),
        Decision::Referral(DomainName::new("ns1.example.com"))
    );
    // an address record whose data is too short is passed over
    let short = record("example.com", QType::A, &[1, 2]);
    assert_eq!(
        decide(QType::A, &response(vec![short.clone()], vec![ns.clone()], vec![])),
        Decision::Referral(DomainName::new("ns1.example.com"))
    );
    assert_eq!(
        decide(QType::A, &response(vec![], vec![ns.clone()], vec![short.clone()])),
        Decision::Referral(DomainName::new("ns1.example.com"))
    );
    assert_eq!(
        decide(QType::A, &response(vec![short.clone(), cname], vec![], vec![short])),
        Decision::Alias(DomainName::new("example.org"))
    );
    // with none of the four there is no way forward
    assert_eq!(decide(QType::MX, &response(vec![mx.clone()], vec![], vec![mx])), Decision::NoUsableAnswer);
}

#[test]
fn section_offers_the_address_of_its_first_record_of_the_type() {
    let first = record("x", QType::A, &[1, 1, 1, 1]);
    let second = record("x", QType::A, &[2, 2, 2, 2]);
    let six = record("x", QType::AAAA, &[0, 0, 0, 0, 0, 0, 0, 0, 0, 0, 0, 0, 0, 0, 0, 9]);
    let message = response(vec![six.clone(), first, second], vec![], vec![six]);
    assert_eq!(offered(&message, QType::A, MsgSection::Answers), Some(IpAddress::V4(0x0101_0101)));
    assert_eq!(offered(&message, QType::AAAA, MsgSection::Answers), Some(IpAddress::V6(9)));
    assert_eq!(offered(&message, QType::A, MsgSection::Additionals), None);
    assert_eq!(offered(&message, QType::AAAA, MsgSection::Additionals), Some(IpAddress::V6(9)));
    assert_eq!(offered(&message, QType::A, MsgSection::Authorities), None);
    assert_eq!(offered(&message, QType::TXT, MsgSection::Answers), None);
}
