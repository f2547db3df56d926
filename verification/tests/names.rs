use dirt::cursor::Cursor;
use dirt::dname::{DomainName, Error, Label, LabelError, DOT};

fn name_of(labels: &[&[u8]]) -> DomainName {
    DomainName(labels.iter().map(|l| Label(l.to_vec())).collect())
}

fn round_trip(name: &DomainName, before: &[u8], after: &[u8]) {
    let encoded = name.encode_dns_name();
    let mut buf = before.to_vec();
    buf.extend_from_slice(&encoded);
    buf.extend_from_slice(after);
    let mut cursor = Cursor::new(&buf);
    cursor.set_position(before.len());
    let decoded = DomainName::from_bytes(&mut cursor).unwrap();
    assert_eq!(&decoded, name);
    assert_eq!(cursor.position(), before.len() + encoded.len());
}

#[test]
fn name_round_trips_through_its_encoding() {
    round_trip(&DomainName::new("a"), b"", b"");
    round_trip(&DomainName::new("www.example.com"), b"", b"");
    round_trip(&DomainName::new("www.example.com"), b"\xc0\xff\x00", b"\x03abc");
    round_trip(&DomainName::new("b\u{fc}cher.example"), b"", b"\x00");
    let longest = "x".repeat(63);
    round_trip(&DomainName::new(&longest), b"", b"");
    let many = vec!["y"; 127].join(".");
    round_trip(&DomainName::new(&many), b"\x00", b"");
}

#[test]
fn name_with_an_empty_label_is_not_read_back() {
    let name = DomainName::new("a..b");
    assert_eq!(name, name_of(&[b"a", b"", b"b"]));
    let encoded = name.encode_dns_name();
    assert_eq!(encoded, b"\x01a\x00\x01b\x00");
    let decoded = DomainName::from_bytes(&mut Cursor::new(&encoded)).unwrap();
    assert_eq!(decoded, name_of(&[b"a"]));
}

#[test]
fn text_splits_at_every_dot() {
    assert_eq!(DomainName::new(""), name_of(&[b""]));
    assert_eq!(DomainName::new("com"), name_of(&[b"com"]));
    assert_eq!(DomainName::new("a."), name_of(&[b"a", b""]));
    assert_eq!(DomainName::new(".a"), name_of(&[b"", b"a"]));
    assert_eq!(DomainName::new("a.bc.def"), name_of(&[b"a", b"bc", b"def"]));
    assert_eq!(DomainName::from_text(b"a.bc.def"), DomainName::new("a.bc.def"));
    assert_eq!(DOT, b'.');
}

#[test]
fn labels_join_with_dots() {
    assert_eq!(name_of(&[]).to_text(), b"");
    assert_eq!(name_of(&[b"com"]).to_text(), b"com");
    assert_eq!(DomainName::new("ns1.example.com").to_text(), b"ns1.example.com");
    assert_eq!(DomainName::new("a..b").to_text(), b"a..b");
}

#[test]
fn root_name_is_a_single_zero_octet() {
    assert_eq!(name_of(&[]).into_bytes(), vec![0u8]);
    let mut cursor = Cursor::new(&[0u8, 7][..]);
    assert_eq!(DomainName::from_bytes(&mut cursor).unwrap(), name_of(&[]));
    assert_eq!(cursor.position(), 1);
}

#[test]
fn label_is_encoded_behind_its_length() {
    assert_eq!(Label::new("www".to_string()).into_bytes(), b"\x03www");
    assert_eq!(Label(vec![]).into_bytes(), b"\x00");
    let longest = Label(vec![b'z'; 63]);
    let bytes = longest.into_bytes();
    assert_eq!(bytes.len(), 64);
    assert_eq!(bytes[0], 63);
    assert_eq!(Label::MAX_LABEL_SIZE, 63);
}

#[test]
fn label_is_read_at_the_cursor() {
    let mut cursor = Cursor::new(&b"abcdef"[..]);
    cursor.set_position(1);
    assert_eq!(Label::read_label(&mut cursor, 3), Ok(Label(b"bcd".to_vec())));
    assert_eq!(cursor.position(), 4);
    assert_eq!(Label::read_label(&mut cursor, 0), Ok(Label(vec![])));
    assert_eq!(cursor.position(), 4);
}

#[test]
fn label_errors() {
    let mut cursor = Cursor::new(&b"abc"[..]);
    assert_eq!(Label::read_label(&mut cursor, 4), Err(LabelError::Truncated));
    assert_eq!(cursor.position(), 0);
    let mut cursor = Cursor::new(&b"a\xffc"[..]);
    assert_eq!(Label::read_label(&mut cursor, 3), Err(LabelError::InvalidEncoding));
    assert_eq!(cursor.position(), 0);
    // a cut-off two-octet character
    let mut cursor = Cursor::new(&b"\xc3\xbc"[..]);
    assert_eq!(Label::read_label(&mut cursor, 1), Err(LabelError::InvalidEncoding));
    assert_eq!(Label::read_label(&mut cursor, 2), Ok(Label("\u{fc}".as_bytes().to_vec())));
}

#[test]
fn pointer_reads_the_name_it_points_to() {
    let mut buf = vec![0u8; 12];
    buf.extend_from_slice(b"\x03www\x07example\x03com\x00");
    let second = buf.len();
    buf.extend_from_slice(b"\xc0\x0c\xff");
    let mut cursor = Cursor::new(&buf);
    cursor.set_position(12);
    let first_name = DomainName::from_bytes(&mut cursor).unwrap();
    assert_eq!(cursor.position(), second);
    let second_name = DomainName::from_bytes(&mut cursor).unwrap();
    assert_eq!(second_name, first_name);
    assert_eq!(second_name, DomainName::new("www.example.com"));
    assert_eq!(cursor.position(), second + 2);
}

#[test]
fn pointer_may_follow_labels_and_point_into_a_name() {
    let mut buf = vec![0u8; 12];
    buf.extend_from_slice(b"\x03www\x07example\x03com\x00");
    let at = buf.len();
    // "ns1" and then the name at offset 16, "example.com"
    buf.extend_from_slice(b"\x03ns1\xc0\x10");
    let mut cursor = Cursor::new(&buf);
    cursor.set_position(at);
    let name = DomainName::from_bytes(&mut cursor).unwrap();
    assert_eq!(name, DomainName::new("ns1.example.com"));
    assert_eq!(cursor.position(), at + 6);
}

#[test]
fn pointer_chain_is_followed_backwards() {
    // offset 0: "com"; offset 5: pointer to 0; offset 7: "a" and pointer to 5
    let buf = b"\x03com\x00\xc0\x00\x01a\xc0\x05";
    let mut cursor = Cursor::new(&buf[..]);
    cursor.set_position(7);
    assert_eq!(DomainName::from_bytes(&mut cursor).unwrap(), DomainName::new("a.com"));
    assert_eq!(cursor.position(), 11);
}

#[test]
fn pointer_that_does_not_point_back_is_refused() {
    // to itself
    let mut cursor = Cursor::new(&b"\xc0\x00"[..]);
    assert_eq!(DomainName::from_bytes(&mut cursor), Err(Error::Pointer(0)));
    assert_eq!(cursor.position(), 0);
    // forwards
    let mut cursor = Cursor::new(&b"\xc0\x02\x00"[..]);
    assert_eq!(DomainName::from_bytes(&mut cursor), Err(Error::Pointer(2)));
    // two pointers at each other, entered at either
    let buf = b"\xc0\x02\xc0\x00";
    let mut cursor = Cursor::new(&buf[..]);
    assert_eq!(DomainName::from_bytes(&mut cursor), Err(Error::Pointer(2)));
    cursor.set_position(2);
    assert_eq!(DomainName::from_bytes(&mut cursor), Err(Error::Pointer(2)));
    assert_eq!(cursor.position(), 2);
    // into the part of the name that holds it
    let buf = b"\x00\x01a\xc0\x01";
    let mut cursor = Cursor::new(&buf[..]);
    cursor.set_position(1);
    assert_eq!(DomainName::from_bytes(&mut cursor), Err(Error::Pointer(1)));
    // the largest offset
    let mut cursor = Cursor::new(&b"\xff\xff"[..]);
    assert_eq!(DomainName::from_bytes(&mut cursor), Err(Error::Pointer(0x3fff)));
}

#[test]
fn name_errors() {
    let mut cursor = Cursor::new(&b""[..]);
    assert_eq!(DomainName::from_bytes(&mut cursor), Err(Error::Truncated));
    let mut cursor = Cursor::new(&b"\x01a"[..]);
    assert_eq!(DomainName::from_bytes(&mut cursor), Err(Error::Truncated));
    assert_eq!(cursor.position(), 0);
    let mut cursor = Cursor::new(&b"\xc0"[..]);
    assert_eq!(DomainName::from_bytes(&mut cursor), Err(Error::Truncated));
    let mut cursor = Cursor::new(&b"\x03ab"[..]);
    assert_eq!(
        DomainName::from_bytes(&mut cursor),
        Err(Error::Label { size: 3, source: LabelError::Truncated })
    );
    let mut cursor = Cursor::new(&b"\x02a\xff\x00"[..]);
    assert_eq!(
        DomainName::from_bytes(&mut cursor),
        Err(Error::Label { size: 2, source: LabelError::InvalidEncoding })
    );
    let mut long = vec![64u8];
    long.extend_from_slice(&[b'a'; 64]);
    long.push(0);
    assert_eq!(DomainName::from_bytes(&mut Cursor::new(&long)), Err(Error::Length(64)));
    assert_eq!(DomainName::from_bytes(&mut Cursor::new(&[0x80u8, 0][..])), Err(Error::Length(0x80)));
    assert_eq!(DomainName::from_bytes(&mut Cursor::new(&[0xbfu8, 0][..])), Err(Error::Length(0xbf)));
    // past the end of the buffer
    let mut cursor = Cursor::new(&b"\x00"[..]);
    cursor.set_position(5);
    assert_eq!(DomainName::from_bytes(&mut cursor), Err(Error::Truncated));
    assert_eq!(cursor.position(), 5);
}

#[test]
fn name_of_more_than_255_octets_is_refused() {
    let label63 = "a".repeat(63);
    // 3 * 64 + 62 + 1 = 255 octets on the wire
    let fits = DomainName::new(&format!("{label63}.{label63}.{label63}.{}", "a".repeat(61)));
    let encoded = fits.encode_dns_name();
    assert_eq!(encoded.len(), 255);
    assert_eq!(DomainName::from_bytes(&mut Cursor::new(&encoded)), Ok(fits));
    let too_long = DomainName::new(&format!("{label63}.{label63}.{label63}.{}", "a".repeat(62)));
    let encoded = too_long.encode_dns_name();
    assert_eq!(encoded.len(), 256);
    let mut cursor = Cursor::new(&encoded);
    assert_eq!(DomainName::from_bytes(&mut cursor), Err(Error::TooLong));
    assert_eq!(cursor.position(), 0);
    // 127 labels of one octet fit, 128 do not
    let most = DomainName::new(&vec!["y"; 127].join("."));
    assert_eq!(DomainName::from_bytes(&mut Cursor::new(&most.encode_dns_name())), Ok(most));
    let more = DomainName::new(&vec!["y"; 128].join("."));
    assert_eq!(
        DomainName::from_bytes(&mut Cursor::new(&more.encode_dns_name())),
        Err(Error::TooLong)
    );
    // octets reached through pointers count
    let mut buf = Vec::new();
    for _ in 0..3 {
        buf.push(63);
        buf.extend_from_slice(&[b'a'; 63]);
    }
    buf.push(0);
    let at = buf.len();
    buf.push(62);
    buf.extend_from_slice(&[b'b'; 62]);
    buf.extend_from_slice(&[0xc0, 0x00]);
    let mut cursor = Cursor::new(&buf);
    cursor.set_position(at);
    assert_eq!(DomainName::from_bytes(&mut cursor), Err(Error::TooLong));
    buf[at] = 61;
    buf.remove(at + 1);
    let mut cursor = Cursor::new(&buf);
    cursor.set_position(at);
    let name = DomainName::from_bytes(&mut cursor).unwrap();
    assert_eq!(name.0.len(), 4);
    assert_eq!(name.encode_dns_name().len(), 255);
    assert_eq!(cursor.position(), buf.len());
}

#[test]
fn truncated_errors_say_so() {
    assert!(Error::Truncated.is_truncated());
    assert!(Error::Label { size: 3, source: LabelError::Truncated }.is_truncated());
    assert!(!Error::Label { size: 3, source: LabelError::InvalidEncoding }.is_truncated());
    assert!(!Error::Length(64).is_truncated());
    assert!(!Error::Pointer(0).is_truncated());
    assert!(!Error::TooLong.is_truncated());
}

#[test]
fn length_octet_with_both_top_bits_is_a_pointer() {
    assert!(DomainName::is_compressed(0xc0));
    assert!(DomainName::is_compressed(0xff));
    assert!(!DomainName::is_compressed(0xbf));
    assert!(!DomainName::is_compressed(0x80));
    assert!(!DomainName::is_compressed(0x40));
    assert!(!DomainName::is_compressed(0x3f));
    assert!(!DomainName::is_compressed(0));
    for size in 0..=255u8 {
        assert_eq!(DomainName::is_compressed(size), size >= 192);
    }
}

#[test]
fn names_that_may_stand_in_a_message() {
    assert!(DomainName::new("www.example.com").is_valid());
    assert!(DomainName::new("www.example.com").is_encodable());
    assert!(DomainName::new("").is_valid());
    assert!(name_of(&[]).is_valid());
    assert!(name_of(&[]).is_encodable());
    let label63 = "a".repeat(63);
    let label64 = "a".repeat(64);
    assert!(DomainName::new(&label63).is_encodable());
    assert!(!DomainName::new(&label64).is_encodable());
    assert!(!DomainName::new(&format!("www.{label64}.com")).is_valid());
    // 3 * 64 + 62 + 1 = 255 octets on the wire
    let fits = format!("{label63}.{label63}.{label63}.{}", "a".repeat(61));
    assert_eq!(DomainName::new(&fits).encode_dns_name().len(), 255);
    assert!(DomainName::new(&fits).is_valid());
    let too_long = format!("{label63}.{label63}.{label63}.{}", "a".repeat(62));
    assert_eq!(DomainName::new(&too_long).encode_dns_name().len(), 256);
    assert!(DomainName::new(&too_long).is_encodable());
    assert!(!DomainName::new(&too_long).is_valid());
    assert!(DomainName::new(&vec!["y"; 127].join(".")).is_valid());
    assert!(!DomainName::new(&vec!["y"; 128].join(".")).is_valid());
    assert_eq!(DomainName::MAX_NAME_SIZE, 255);
    assert_eq!(DomainName::MAX_UDP_MSG_SIZE, 512);
    assert_eq!(DomainName::TERMINATOR, 0);
}

#[test]
fn copy_of_a_name_is_the_name() {
    let name = DomainName::new("www.example.com");
    assert_eq!(name.duplicate(), name);
    assert_eq!(name_of(&[]).duplicate(), name_of(&[]));
}

#[test]
fn names_of_plain_labels() {
    assert!(DomainName::new("www.example.com").is_plain());
    assert!(DomainName::new("b\u{fc}cher.example").is_plain());
    assert!(name_of(&[]).is_plain());
    assert!(!DomainName::new("").is_plain());
    assert!(!DomainName::new("a..b").is_plain());
    assert!(DomainName::new(&"a".repeat(63)).is_plain());
    assert!(!DomainName::new(&"a".repeat(64)).is_plain());
    assert!(!name_of(&[b"ok", b"\xff"]).is_plain());
}

#[test]
fn label_as_text() {
    assert_eq!(Label::new("www".to_string()).as_str(), Some("www"));
    assert_eq!(Label(vec![]).as_str(), Some(""));
    assert_eq!(Label(vec![0xc3, 0xbc]).as_str(), Some("\u{fc}"));
    assert_eq!(Label(vec![0xc3]).as_str(), None);
    assert_eq!(Label::new("m\u{fc}".to_string()), Label(vec![b'm', 0xc3, 0xbc]));
}

#[test]
fn name_is_written_with_dots_as_it_was_given() {
    for text in ["", "com", "www.example.com", "a..b", ".", "a.", ".a", "...", "b\u{fc}cher.example"] {
        let name = DomainName::new(text);
        assert!(!name.0.is_empty());
        assert_eq!(name.0.len(), text.matches('.').count() + 1);
        assert_eq!(name.to_text(), text.as_bytes());
        assert_eq!(DomainName::from_text(&name.to_text()), name);
    }
}

#[test]
fn labels_without_dots_are_told_apart_again() {
    for name in [name_of(&[b"a"]), name_of(&[b"", b""]), name_of(&[b"ns1", b"example", b"com"])] {
        assert_eq!(DomainName::from_text(&name.to_text()), name);
    }
    // a label that holds a dot is not
    let dotted = name_of(&[b"a.b", b"c"]);
    assert_eq!(dotted.to_text(), b"a.b.c");
    assert_eq!(DomainName::from_text(&dotted.to_text()), name_of(&[b"a", b"b", b"c"]));
    // nor is the name of no label, which is written as the name of one empty label
    assert_eq!(DomainName::from_text(&name_of(&[]).to_text()), name_of(&[b""]));
}
