//! Domain names: sequences of labels.
//!
//! On the wire a name is its labels, each behind an octet that holds its
//! length, and a zero octet at the end. In place of the zero octet a name may
//! end in a pointer: two octets, the first with its two top bits set, that
//! hold the offset in the message at which the rest of the name stands.
//!
//! See [RFC 1034](https://datatracker.ietf.org/doc/html/rfc1034) and
//! [RFC 1035 section 3.1](https://datatracker.ietf.org/doc/html/rfc1035#section-3.1).

use crate::cursor::{spec_has, Cursor};
use vstd::prelude::*;
use vstd::slice::slice_to_vec;
use vstd::utf8::{encode_utf8, valid_utf8};

verus! {

/// What can go wrong while one label is read.
#[derive(Debug, Clone, Copy, PartialEq, Eq)]
pub enum LabelError {
    /// Fewer octets were left than the label's length asks for.
    Truncated,
    /// The octets of the label are not UTF-8 text.
    InvalidEncoding,
}

/// What can go wrong while a name is read.
#[derive(Debug, Clone, Copy, PartialEq, Eq)]
pub enum Error {
    /// A label of `size` octets could not be read.
    Label { size: u8, source: LabelError },
    /// The buffer ended where a length octet or the second octet of a
    /// pointer was due.
    Truncated,
    /// A length octet over 63 that is no pointer.
    Length(u8),
    /// A pointer that does not point before the part of the name that holds
    /// it. Following only pointers that point further back bounds the work.
    Pointer(u16),
    /// The labels read so far, the next one and the zero octet would take
    /// more than 255 octets.
    TooLong,
}

pub type DomainNameError = Error;

impl Error {
    /// Whether the error says that the buffer ended too early.
    pub open spec fn spec_is_truncated(self) -> bool {
        match self {
            Error::Truncated => true,
            Error::Label { size, source } => source == LabelError::Truncated,
            _ => false,
        }
    }

    /// Whether the error says that the buffer ended too early.
    pub fn is_truncated(&self) -> (b: bool)
        ensures
            b == self.spec_is_truncated(),
    {
        match self {
            Error::Truncated => true,
            Error::Label { size: _, source: LabelError::Truncated } => true,
            _ => false,
        }
    }
}

pub type Result<T> = std::result::Result<T, Error>;

/// One node of a domain name: the octets between two dots.
#[derive(Debug, Clone, PartialEq, Eq)]
pub struct Label(pub Vec<u8>);

impl View for Label {
    type V = Seq<u8>;

    open spec fn view(&self) -> Seq<u8> {
        self.0@
    }
}

/// Calls `std::str::from_utf8`. Not proved: that it succeeds exactly on
/// valid UTF-8, and that the text it returns is spelled by these octets.
#[verifier::external_body]
pub(crate) fn text_of(bytes: &[u8]) -> (r: Option<&str>)
    ensures
        r.is_some() == valid_utf8(bytes@),
        r.is_some() ==> encode_utf8(r.unwrap()@) == bytes@,
{
    match std::str::from_utf8(bytes) {
        Ok(text) => Some(text),
        Err(_) => None,
    }
}

/// The label of `len` octets that `buf` holds at `pos`, and the position
/// behind it.
pub open spec fn parse_label(buf: Seq<u8>, pos: int, len: int) -> std::result::Result<
    (Seq<u8>, int),
    LabelError,
> {
    if !spec_has(buf, pos, len) {
        Err(LabelError::Truncated)
    } else if !valid_utf8(buf.subrange(pos, pos + len)) {
        Err(LabelError::InvalidEncoding)
    } else {
        Ok((buf.subrange(pos, pos + len), pos + len))
    }
}

impl Label {
    /// The greatest number of octets in one label.
    pub const MAX_LABEL_SIZE: usize = 63;

    /// The label that holds the octets of `string`.
    pub fn new(string: String) -> (label: Self)
        ensures
            label@ == encode_utf8(string@),
    {
        Label(slice_to_vec(string.as_str().as_bytes()))
    }

    /// The label as text, where its octets are UTF-8.
    pub fn as_str(&self) -> (r: Option<&str>)
        ensures
            r.is_some() == valid_utf8(self@),
            r.is_some() ==> encode_utf8(r.unwrap()@) == self@,
    {
        text_of(self.0.as_slice())
    }

    /// The label on the wire: its length in one octet, then its octets.
    pub open spec fn spec_bytes(label: Seq<u8>) -> Seq<u8> {
        seq![label.len() as u8] + label
    }

    /// Encodes the label. A label of more than 63 octets has no encoding.
    pub fn into_bytes(self) -> (buf: Vec<u8>)
        requires
            self@.len() <= 63,
        ensures
            buf@ == Label::spec_bytes(self@),
    {
        let mut buf: Vec<u8> = Vec::new();
        buf.push(self.0.len() as u8);
        buf.extend_from_slice(self.0.as_slice());
        buf
    }

    /// Reads a label of `length` octets at the cursor and steps over it. On
    /// an error the cursor stays where it was.
    pub fn read_label(bytes: &mut Cursor, length: usize) -> (r: std::result::Result<
        Label,
        LabelError,
    >)
        ensures
            final(bytes).bytes == old(bytes).bytes,
            match parse_label(old(bytes).bytes@, old(bytes).pos as int, length as int) {
                Ok((label, next)) => r.is_ok() && r.unwrap()@ == label && final(bytes).pos
                    == next,
                Err(e) => r == Err::<Label, LabelError>(e) && final(bytes).pos == old(
                    bytes,
                ).pos,
            },
    {
        let start = bytes.pos;
        match bytes.read_bytes(length) {
            None => Err(LabelError::Truncated),
            Some(octets) => {
                if text_of(octets.as_slice()).is_some() {
                    Ok(Label(octets))
                } else {
                    bytes.pos = start;
                    Err(LabelError::InvalidEncoding)
                }
            },
        }
    }
}

/// The name of a node in requests and responses.
#[derive(Debug, Clone, PartialEq, Eq)]
pub struct DomainName(pub Vec<Label>);

impl View for DomainName {
    type V = Seq<Seq<u8>>;

    open spec fn view(&self) -> Seq<Seq<u8>> {
        self.0@.map_values(|label: Label| label@)
    }
}

/// The octet of a dot.
pub const DOT: u8 = 46;

/// The labels of a name written with dots: the pieces between the dots, one
/// more than there are dots.
pub open spec fn split_dots(text: Seq<u8>) -> Seq<Seq<u8>>
    decreases text.len(),
{
    if text.len() == 0 {
        seq![Seq::<u8>::empty()]
    } else {
        let before = split_dots(text.drop_last());
        if text.last() == DOT {
            before.push(Seq::<u8>::empty())
        } else {
            before.update(before.len() - 1, before.last().push(text.last()))
        }
    }
}

/// A name written with dots: its labels with a dot between each two.
pub open spec fn join_dots(labels: Seq<Seq<u8>>) -> Seq<u8>
    decreases labels.len(),
{
    if labels.len() == 0 {
        Seq::<u8>::empty()
    } else if labels.len() == 1 {
        labels[0]
    } else {
        join_dots(labels.drop_last()) + seq![DOT] + labels.last()
    }
}

/// Whether no label holds a dot. The labels of such a name are told apart
/// again where the name is written with dots.
pub open spec fn spec_dotless(labels: Seq<Seq<u8>>) -> bool {
    forall|i: int, j: int|
        0 <= i < labels.len() && 0 <= j < labels[i].len() ==> #[trigger] labels[i][j] != DOT
}

/// A name on the wire: each label behind its length, then a zero octet.
pub open spec fn encode_labels(labels: Seq<Seq<u8>>) -> Seq<u8>
    decreases labels.len(),
{
    if labels.len() == 0 {
        seq![0u8]
    } else {
        Label::spec_bytes(labels[0]) + encode_labels(labels.drop_first())
    }
}

/// Whether every label has an encoding: none is longer than 63 octets.
pub open spec fn spec_encodable(labels: Seq<Seq<u8>>) -> bool {
    forall|i: int| 0 <= i < labels.len() ==> (#[trigger] labels[i]).len() <= 63
}

/// Whether every label is text of 1 to 63 octets. Such a name is read back
/// from its encoding as it was.
pub open spec fn spec_plain(labels: Seq<Seq<u8>>) -> bool {
    forall|i: int|
        0 <= i < labels.len() ==> 1 <= (#[trigger] labels[i]).len() <= 63 && valid_utf8(labels[i])
}

/// The number of octets that a name takes on the wire, counted label by
/// label from the front.
pub open spec fn spec_encoded_len(labels: Seq<Seq<u8>>) -> int
    decreases labels.len(),
{
    if labels.len() == 0 {
        1
    } else {
        spec_encoded_len(labels.drop_last()) + 1 + labels.last().len()
    }
}

/// Whether a name may stand in a message: no label is longer than 63
/// octets, and on the wire the name takes no more than 255.
pub open spec fn spec_valid(labels: Seq<Seq<u8>>) -> bool {
    spec_encodable(labels) && encode_labels(labels).len() <= 255
}

/// The offset that a pointer holds: the low six bits of its first octet and
/// its second octet.
pub open spec fn spec_pointer(first: u8, second: u8) -> int {
    (first - 192) * 256 + second
}

/// The name that `buf` holds at `pos`, and the position behind it, where a
/// pointer is followed only to an offset below `limit`, and where the labels
/// read before took `used` octets with their length octets.
///
/// The position behind a name that ends in a pointer is the position behind
/// the pointer.
pub open spec fn parse_name_from(buf: Seq<u8>, pos: int, limit: int, used: int) -> Result<
    (Seq<Seq<u8>>, int),
>
    decreases limit, buf.len() - pos,
{
    if !spec_has(buf, pos, 1) {
        Err(Error::Truncated)
    } else {
        let size = buf[pos];
        if size == 0 {
            Ok((Seq::<Seq<u8>>::empty(), pos + 1))
        } else if size >= 192 {
            if !spec_has(buf, pos, 2) {
                Err(Error::Truncated)
            } else {
                let target = spec_pointer(size, buf[pos + 1]);
                if target >= limit {
                    Err(Error::Pointer(target as u16))
                } else {
                    match parse_name_from(buf, target, target, used) {
                        Ok((labels, _)) => Ok((labels, pos + 2)),
                        Err(e) => Err(e),
                    }
                }
            }
        } else if size > 63 {
            Err(Error::Length(size))
        } else if used + 1 + size + 1 > 255 {
            Err(Error::TooLong)
        } else {
            match parse_label(buf, pos + 1, size as int) {
                Err(source) => Err(Error::Label { size, source }),
                Ok((label, behind)) => match parse_name_from(
                    buf,
                    behind,
                    limit,
                    used + 1 + size,
                ) {
                    Ok((labels, next)) => Ok((seq![label] + labels, next)),
                    Err(e) => Err(e),
                },
            }
        }
    }
}

/// The name that `buf` holds at `pos`, and the position behind it.
///
/// Two rules bound the work. A pointer must point before the part of the
/// name that holds it: before `pos`, and then before each offset that a
/// pointer of this name has led to. And the name must not take more than
/// 255 octets on the wire, pointers followed.
pub open spec fn parse_name(buf: Seq<u8>, pos: int) -> Result<(Seq<Seq<u8>>, int)> {
    parse_name_from(buf, pos, pos, 0)
}

/// What a name comes to once the labels read so far stand before those that
/// follow, and the position is the first pointer's where one was followed.
pub open spec fn spec_resume(
    rest: Result<(Seq<Seq<u8>>, int)>,
    before: Seq<Seq<u8>>,
    resume: Option<int>,
) -> Result<(Seq<Seq<u8>>, int)> {
    match rest {
        Ok((labels, next)) => Ok(
            (
                before + labels,
                match resume {
                    Some(p) => p,
                    None => next,
                },
            ),
        ),
        Err(e) => Err(e),
    }
}

impl DomainName {
    /// The greatest number of octets in an encoded name.
    pub const MAX_NAME_SIZE: usize = 255;

    /// The greatest number of octets in a message sent in one datagram.
    pub const MAX_UDP_MSG_SIZE: usize = 512;

    /// The octet that ends a name.
    pub const TERMINATOR: u8 = 0;

    /// Whether a length octet starts a pointer: its two top bits are set.
    pub fn is_compressed(size: u8) -> (b: bool)
        ensures
            b == (size >= 192),
    {
        assert((size & 0b1100_0000 == 0b1100_0000) == (size >= 192)) by (bit_vector);
        size & 0b1100_0000 == 0b1100_0000
    }

    /// The name whose labels are the pieces of `text` between its dots.
    pub fn from_text(text: &[u8]) -> (name: Self)
        ensures
            name@ == split_dots(text@),
            name@.len() >= 1,
            join_dots(name@) == text@,
    {
        proof {
            lemma_text_round_trip(text@);
        }
        let mut labels: Vec<Label> = Vec::new();
        let mut current: Vec<u8> = Vec::new();
        let mut i: usize = 0;
        assert(text@.take(0) =~= Seq::<u8>::empty());
        assert(labels@.map_values(|label: Label| label@).push(current@) =~= seq![
            Seq::<u8>::empty(),
        ]);
        while i < text.len()
            invariant
                i <= text.len(),
                labels@.map_values(|label: Label| label@).push(current@) == split_dots(
                    text@.take(i as int),
                ),
            decreases text.len() - i,
        {
            let ghost before = labels@.map_values(|label: Label| label@).push(current@);
            let octet: u8 = text[i];
            proof {
                let upto = text@.take(i + 1);
                assert(upto.drop_last() =~= text@.take(i as int));
                assert(upto.last() == octet);
            }
            if octet == DOT {
                labels.push(Label(current));
                current = Vec::new();
                assert(labels@.map_values(|label: Label| label@).push(current@) =~= before.push(
                    Seq::<u8>::empty(),
                ));
            } else {
                current.push(octet);
                assert(labels@.map_values(|label: Label| label@).push(current@) =~= before.update(
                    before.len() - 1,
                    before.last().push(octet),
                ));
            }
            i = i + 1;
        }
        assert(text@.take(i as int) =~= text@);
        let ghost all = labels@.map_values(|label: Label| label@).push(current@);
        labels.push(Label(current));
        assert(labels@.map_values(|label: Label| label@) =~= all);
        DomainName(labels)
    }

    /// The name whose labels are the pieces of `domain_name` between its
    /// dots.
    pub fn new(domain_name: &str) -> (name: Self)
        ensures
            name@ == split_dots(encode_utf8(domain_name@)),
            name@.len() >= 1,
            join_dots(name@) == encode_utf8(domain_name@),
    {
        DomainName::from_text(domain_name.as_bytes())
    }

    /// A copy of the name.
    pub fn duplicate(&self) -> (name: Self)
        ensures
            name@ == self@,
    {
        let mut labels: Vec<Label> = Vec::new();
        let mut i: usize = 0;
        while i < self.0.len()
            invariant
                i <= self.0.len(),
                labels@.map_values(|label: Label| label@) == self@.take(i as int),
            decreases self.0.len() - i,
        {
            let ghost before = labels@.map_values(|label: Label| label@);
            labels.push(Label(slice_to_vec(self.0[i].0.as_slice())));
            assert(labels@.map_values(|label: Label| label@) =~= before.push(self@[i as int]));
            assert(self@.take(i + 1) =~= self@.take(i as int).push(self@[i as int]));
            i = i + 1;
        }
        assert(self@.take(i as int) =~= self@);
        DomainName(labels)
    }

    /// Whether the name may stand in a message.
    pub fn is_valid(&self) -> (b: bool)
        ensures
            b == spec_valid(self@),
    {
        if !self.is_encodable() {
            return false;
        }
        let mut total: usize = 1;
        let mut i: usize = 0;
        assert(self@.take(0) =~= Seq::<Seq<u8>>::empty());
        while i < self.0.len()
            invariant
                i <= self.0.len(),
                spec_encodable(self@),
                total == spec_encoded_len(self@.take(i as int)),
                total <= 255,
            decreases self.0.len() - i,
        {
            assert(self@.take(i + 1).drop_last() =~= self@.take(i as int));
            assert(self@.take(i + 1).last() == self@[i as int]);
            total = total + 1 + self.0[i].0.len();
            if total > 255 {
                proof {
                    lemma_encoded_len_grows(self@, i + 1);
                    lemma_encoded_len(self@);
                }
                return false;
            }
            i = i + 1;
        }
        assert(self@.take(i as int) =~= self@);
        proof {
            lemma_encoded_len(self@);
        }
        true
    }

    /// Whether every label is text of 1 to 63 octets.
    pub fn is_plain(&self) -> (b: bool)
        ensures
            b == spec_plain(self@),
    {
        let mut i: usize = 0;
        while i < self.0.len()
            invariant
                i <= self.0.len(),
                forall|j: int|
                    0 <= j < i ==> 1 <= (#[trigger] self@[j]).len() <= 63 && valid_utf8(self@[j]),
            decreases self.0.len() - i,
        {
            let label = &self.0[i];
            if label.0.len() < 1 || label.0.len() > 63 || text_of(label.0.as_slice()).is_none() {
                assert(!(1 <= self@[i as int].len() <= 63 && valid_utf8(self@[i as int])));
                return false;
            }
            i = i + 1;
        }
        true
    }

    /// Whether every label has an encoding.
    pub fn is_encodable(&self) -> (b: bool)
        ensures
            b == spec_encodable(self@),
    {
        let mut i: usize = 0;
        while i < self.0.len()
            invariant
                i <= self.0.len(),
                forall|j: int| 0 <= j < i ==> (#[trigger] self@[j]).len() <= 63,
            decreases self.0.len() - i,
        {
            if self.0[i].0.len() > 63 {
                assert(self@[i as int].len() > 63);
                return false;
            }
            i = i + 1;
        }
        true
    }

    /// The name written with dots.
    pub fn to_text(&self) -> (text: Vec<u8>)
        ensures
            text@ == join_dots(self@),
    {
        let mut text: Vec<u8> = Vec::new();
        let mut i: usize = 0;
        assert(self@.take(0) =~= Seq::<Seq<u8>>::empty());
        while i < self.0.len()
            invariant
                i <= self.0.len(),
                text@ == join_dots(self@.take(i as int)),
            decreases self.0.len() - i,
        {
            proof {
                let upto = self@.take(i + 1);
                assert(upto.drop_last() =~= self@.take(i as int));
                assert(upto.last() == self@[i as int]);
                assert(upto[0] == self@[0]);
            }
            if i > 0 {
                text.push(DOT);
            }
            text.extend_from_slice(self.0[i].0.as_slice());
            assert(text@ =~= join_dots(self@.take(i + 1)));
            i = i + 1;
        }
        assert(self@.take(i as int) =~= self@);
        text
    }

    /// Encodes the name without consuming it.
    pub fn encode_dns_name(&self) -> (buf: Vec<u8>)
        requires
            spec_encodable(self@),
        ensures
            buf@ == encode_labels(self@),
    {
        let mut buf: Vec<u8> = Vec::new();
        let mut i: usize = 0;
        assert(self@.skip(0) =~= self@);
        while i < self.0.len()
            invariant
                i <= self.0.len(),
                spec_encodable(self@),
                buf@ + encode_labels(self@.skip(i as int)) == encode_labels(self@),
            decreases self.0.len() - i,
        {
            let ghost rest = self@.skip(i as int);
            let ghost old_buf = buf@;
            assert(rest.drop_first() =~= self@.skip(i + 1));
            assert(rest[0] == self@[i as int]);
            buf.push(self.0[i].0.len() as u8);
            buf.extend_from_slice(self.0[i].0.as_slice());
            assert(buf@ =~= old_buf + Label::spec_bytes(self@[i as int]));
            assert(buf@ + encode_labels(self@.skip(i + 1)) =~= old_buf + encode_labels(rest));
            i = i + 1;
        }
        assert(self@.skip(i as int) =~= Seq::<Seq<u8>>::empty());
        buf.push(DomainName::TERMINATOR);
        assert(buf@ =~= encode_labels(self@));
        buf
    }

    /// Encodes the name: each label behind its length, then a zero octet.
    pub fn into_bytes(self) -> (buf: Vec<u8>)
        requires
            spec_encodable(self@),
        ensures
            buf@ == encode_labels(self@),
    {
        self.encode_dns_name()
    }

    /// Decodes a name at the cursor and steps over it: over its zero octet,
    /// or over its pointer where it ends in one. On an error the cursor
    /// stays where it was. A name that was read may stand in a message, and
    /// its labels are each text of 1 to 63 octets.
    pub fn from_bytes(bytes: &mut Cursor) -> (r: Result<Self>)
        ensures
            final(bytes).bytes == old(bytes).bytes,
            r.is_ok() ==> spec_plain(r.unwrap()@) && spec_valid(r.unwrap()@),
            match parse_name(old(bytes).bytes@, old(bytes).pos as int) {
                Ok((labels, next)) => r.is_ok() && r.unwrap()@ == labels && final(bytes).pos
                    == next,
                Err(e) => r == Err::<DomainName, Error>(e) && final(bytes).pos == old(bytes).pos,
            },
    {
        let ghost buf = bytes.bytes@;
        let ghost start = bytes.pos as int;
        let mut reader = Cursor { bytes: bytes.bytes, pos: bytes.pos };
        let mut limit: usize = bytes.pos;
        let mut used: usize = 0;
        let mut resume: Option<usize> = None;
        let mut labels: Vec<Label> = Vec::new();
        assert(labels@.map_values(|label: Label| label@) =~= Seq::<Seq<u8>>::empty());
        proof {
            lemma_parsed_name_is_plain(buf, start, start, 0);
            match parse_name(buf, start) {
                Ok((all, _)) => {
                    assert(Seq::<Seq<u8>>::empty() + all =~= all);
                },
                Err(_) => {},
            }
        }
        loop
            invariant
                match parse_name(buf, start) {
                    Ok((all, _)) => spec_plain(all) && spec_valid(all),
                    Err(_) => true,
                },
                bytes.bytes == old(bytes).bytes,
                bytes.pos == old(bytes).pos,
                reader.bytes == old(bytes).bytes,
                buf == old(bytes).bytes@,
                start == old(bytes).pos,
                used <= 255,
                spec_resume(
                    parse_name_from(buf, reader.pos as int, limit as int, used as int),
                    labels@.map_values(|label: Label| label@),
                    match resume {
                        Some(p) => Some(p as int),
                        None => None,
                    },
                ) == parse_name(buf, start),
            decreases limit, buf.len() - reader.pos,
        {
            let ghost before = labels@.map_values(|label: Label| label@);
            let size: u8 = match reader.read_u8() {
                Some(size) => size,
                None => {
                    return Err(Error::Truncated);
                },
            };
            if size == DomainName::TERMINATOR {
                bytes.pos = match resume {
                    Some(p) => p,
                    None => reader.pos,
                };
                assert(before + Seq::<Seq<u8>>::empty() =~= before);
                return Ok(DomainName(labels));
            } else if DomainName::is_compressed(size) {
                let second: u8 = match reader.read_u8() {
                    Some(second) => second,
                    None => {
                        return Err(Error::Truncated);
                    },
                };
                let target: u16 = ((size - 192) as u16) * 256 + (second as u16);
                if target as usize >= limit {
                    return Err(Error::Pointer(target));
                }
                if resume.is_none() {
                    resume = Some(reader.pos);
                }
                reader.pos = target as usize;
                limit = target as usize;
            } else if size > 63 {
                return Err(Error::Length(size));
            } else if used + 1 + size as usize + 1 > DomainName::MAX_NAME_SIZE {
                return Err(Error::TooLong);
            } else {
                match Label::read_label(&mut reader, size as usize) {
                    Err(source) => {
                        return Err(Error::Label { size, source });
                    },
                    Ok(label) => {
                        proof {
                            match parse_name_from(
                                buf,
                                reader.pos as int,
                                limit as int,
                                used + 1 + size,
                            ) {
                                Ok((rest, _)) => {
                                    assert(before + (seq![label@] + rest) =~= before.push(label@)
                                        + rest);
                                },
                                Err(_) => {},
                            }
                        }
                        labels.push(label);
                        used = used + 1 + size as usize;
                        assert(labels@.map_values(|label: Label| label@) =~= before.push(
                            label@,
                        ));
                    },
                }
            }
        }
    }
}

/// A name written with dots has at least one label, and its labels joined
/// with dots are the text again.
pub proof fn lemma_text_round_trip(text: Seq<u8>)
    ensures
        split_dots(text).len() >= 1,
        join_dots(split_dots(text)) == text,
    decreases text.len(),
{
    if text.len() == 0 {
        assert(join_dots(seq![Seq::<u8>::empty()]) =~= text);
    } else {
        let shorter = text.drop_last();
        lemma_text_round_trip(shorter);
        let before = split_dots(shorter);
        assert(shorter.push(text.last()) =~= text);
        if text.last() == DOT {
            let all = before.push(Seq::<u8>::empty());
            assert(all.drop_last() =~= before);
            assert(join_dots(all) =~= join_dots(before) + seq![DOT] + Seq::<u8>::empty());
            assert(join_dots(all) =~= shorter.push(DOT));
        } else {
            let last = before.last().push(text.last());
            let all = before.update(before.len() - 1, last);
            if before.len() == 1 {
                assert(join_dots(before) == before[0]);
                assert(join_dots(all) == all[0]);
            } else {
                assert(all.drop_last() =~= before.drop_last());
                assert(join_dots(all) =~= join_dots(before.drop_last()) + seq![DOT] + last);
                assert(join_dots(before) =~= join_dots(before.drop_last()) + seq![DOT]
                    + before.last());
            }
            assert(join_dots(all) =~= join_dots(before).push(text.last()));
        }
    }
}

/// Octets without a dot among them, written behind a name with dots,
/// lengthen its last label.
pub proof fn lemma_split_append(text: Seq<u8>, more: Seq<u8>)
    requires
        forall|j: int| 0 <= j < more.len() ==> more[j] != DOT,
    ensures
        split_dots(text).len() >= 1,
        split_dots(text + more) == split_dots(text).update(
            split_dots(text).len() - 1,
            split_dots(text).last() + more,
        ),
    decreases more.len(),
{
    lemma_text_round_trip(text);
    let labels = split_dots(text);
    if more.len() == 0 {
        assert(text + more =~= text);
        assert(labels.last() + more =~= labels.last());
        assert(labels.update(labels.len() - 1, labels.last()) =~= labels);
    } else {
        let shorter = more.drop_last();
        lemma_split_append(text, shorter);
        assert((text + more).drop_last() =~= text + shorter);
        assert((text + more).last() == more.last());
        let so_far = labels.update(labels.len() - 1, labels.last() + shorter);
        assert((labels.last() + shorter).push(more.last()) =~= labels.last() + more);
        assert(so_far.update(so_far.len() - 1, so_far.last().push(more.last()))
            =~= labels.update(labels.len() - 1, labels.last() + more));
    }
}

/// A name of at least one label, none of which holds a dot, is told apart
/// into its labels again where it is written with dots.
pub proof fn lemma_labels_round_trip(labels: Seq<Seq<u8>>)
    requires
        labels.len() >= 1,
        spec_dotless(labels),
    ensures
        split_dots(join_dots(labels)) == labels,
    decreases labels.len(),
{
    let last = labels.last();
    assert forall|j: int| 0 <= j < last.len() implies last[j] != DOT by {
        assert(labels[labels.len() - 1][j] != DOT);
    }
    if labels.len() == 1 {
        let none = Seq::<u8>::empty();
        lemma_split_append(none, last);
        assert(none + last =~= last);
        assert(split_dots(none).update(0, split_dots(none).last() + last) =~= labels);
    } else {
        let front = labels.drop_last();
        assert(spec_dotless(front)) by {
            assert forall|i: int, j: int|
                0 <= i < front.len() && 0 <= j < front[i].len() implies #[trigger] front[i][j]
                != DOT by {
                assert(labels[i][j] != DOT);
            }
        }
        lemma_labels_round_trip(front);
        let text = join_dots(front) + seq![DOT];
        assert(text.drop_last() =~= join_dots(front));
        assert(text.last() == DOT);
        assert(split_dots(text) == front.push(Seq::<u8>::empty()));
        lemma_split_append(text, last);
        assert(join_dots(labels) == text + last);
        assert(front.push(Seq::<u8>::empty()).update(
            front.len() as int,
            Seq::<u8>::empty() + last,
        ) =~= labels);
    }
}

/// The first labels of a name take no more octets than the whole name.
pub proof fn lemma_encoded_len_grows(labels: Seq<Seq<u8>>, n: int)
    requires
        0 <= n <= labels.len(),
    ensures
        spec_encoded_len(labels.take(n)) <= spec_encoded_len(labels),
    decreases labels.len() - n,
{
    if n < labels.len() {
        assert(labels.take(n + 1).drop_last() =~= labels.take(n));
        lemma_encoded_len_grows(labels, n + 1);
    } else {
        assert(labels.take(n) =~= labels);
    }
}

/// The encoding of a name has as many octets as `spec_encoded_len` says.
pub proof fn lemma_encoded_len(labels: Seq<Seq<u8>>)
    ensures
        encode_labels(labels).len() == spec_encoded_len(labels),
    decreases labels.len(),
{
    if labels.len() > 0 {
        lemma_encoded_len(labels.drop_first());
        lemma_encoded_len_front(labels);
    }
}

/// The first label adds its length and one octet to a name on the wire.
pub proof fn lemma_encoded_len_front(labels: Seq<Seq<u8>>)
    requires
        labels.len() > 0,
    ensures
        spec_encoded_len(labels) == spec_encoded_len(labels.drop_first()) + 1 + labels[0].len(),
    decreases labels.len(),
{
    if labels.len() > 1 {
        assert(labels.drop_last().drop_first() =~= labels.drop_first().drop_last());
        lemma_encoded_len_front(labels.drop_last());
        assert(labels.drop_last()[0] == labels[0]);
        assert(labels.drop_first().last() == labels.last());
    } else {
        assert(labels.drop_last() =~= Seq::<Seq<u8>>::empty());
        assert(labels.drop_first() =~= Seq::<Seq<u8>>::empty());
    }
}

/// A name of labels that are each text of 1 to 63 octets, and that takes no
/// more than 255 octets on the wire, is read back from its encoding as it
/// was, wherever in a buffer the encoding stands, and the position behind it
/// is the end of the encoding.
pub proof fn lemma_name_round_trip(before: Seq<u8>, labels: Seq<Seq<u8>>, after: Seq<u8>)
    requires
        spec_plain(labels),
        encode_labels(labels).len() <= 255,
    ensures
        parse_name(before + encode_labels(labels) + after, before.len() as int) == Ok::<
            (Seq<Seq<u8>>, int),
            Error,
        >((labels, (before.len() + encode_labels(labels).len()) as int)),
{
    let buf = before + encode_labels(labels) + after;
    assert(buf.subrange(
        before.len() as int,
        (before.len() + encode_labels(labels).len()) as int,
    ) =~= encode_labels(labels));
    lemma_encoded_name_parses(buf, before.len() as int, before.len() as int, 0, labels);
}

/// Where the encoding of such a name stands at `pos`, it is read back
/// whatever the limit on pointers: it holds none.
pub proof fn lemma_encoded_name_parses(
    buf: Seq<u8>,
    pos: int,
    limit: int,
    used: int,
    labels: Seq<Seq<u8>>,
)
    requires
        spec_plain(labels),
        0 <= used,
        used + encode_labels(labels).len() <= 255,
        0 <= pos,
        pos + encode_labels(labels).len() <= buf.len(),
        buf.subrange(pos, pos + encode_labels(labels).len()) == encode_labels(labels),
    ensures
        parse_name_from(buf, pos, limit, used) == Ok::<(Seq<Seq<u8>>, int), Error>(
            (labels, pos + encode_labels(labels).len()),
        ),
    decreases labels.len(),
{
    let encoded = encode_labels(labels);
    assert(buf[pos] == buf.subrange(pos, pos + encoded.len())[0]);
    if labels.len() == 0 {
        assert(labels =~= Seq::<Seq<u8>>::empty());
    } else {
        let first = labels[0];
        let rest = labels.drop_first();
        let behind = pos + 1 + first.len();
        assert(encoded == Label::spec_bytes(first) + encode_labels(rest));
        lemma_encoded_len(rest);
        assert(encode_labels(rest).len() >= 1);
        assert(buf.subrange(pos + 1, behind) =~= first) by {
            assert forall|i: int| 0 <= i < first.len() implies buf.subrange(pos + 1, behind)[i]
                == first[i] by {
                assert(buf[pos + 1 + i] == buf.subrange(pos, pos + encoded.len())[1 + i]);
            }
        }
        assert(buf.subrange(behind, behind + encode_labels(rest).len()) =~= encode_labels(rest))
            by {
            assert forall|i: int| 0 <= i < encode_labels(rest).len() implies buf.subrange(
                behind,
                behind + encode_labels(rest).len(),
            )[i] == encode_labels(rest)[i] by {
                assert(buf[behind + i] == buf.subrange(pos, pos + encoded.len())[1 + first.len()
                    + i]);
            }
        }
        assert(spec_plain(rest)) by {
            assert forall|i: int| 0 <= i < rest.len() implies 1 <= (#[trigger] rest[i]).len()
                <= 63 && valid_utf8(rest[i]) by {
                assert(rest[i] == labels[i + 1]);
            }
        }
        lemma_encoded_name_parses(buf, behind, limit, used + 1 + first.len(), rest);
        assert(seq![first] + rest =~= labels);
    }
}

/// A name that was read has labels that are each text of 1 to 63 octets,
/// and takes no more than 255 octets on the wire: it may stand in a message,
/// and it is read back from its own encoding as it was.
pub proof fn lemma_parsed_name_is_plain(buf: Seq<u8>, pos: int, limit: int, used: int)
    requires
        0 <= used < 255,
    ensures
        match parse_name_from(buf, pos, limit, used) {
            Ok((labels, _)) => spec_plain(labels) && used + encode_labels(labels).len() <= 255,
            Err(_) => true,
        },
    decreases limit, buf.len() - pos,
{
    if spec_has(buf, pos, 1) {
        let size = buf[pos];
        if size == 0 {
        } else if size >= 192 {
            if spec_has(buf, pos, 2) {
                let target = spec_pointer(size, buf[pos + 1]);
                if target < limit {
                    lemma_parsed_name_is_plain(buf, target, target, used);
                }
            }
        } else if size <= 63 && used + 1 + size + 1 <= 255 {
            match parse_label(buf, pos + 1, size as int) {
                Ok((label, behind)) => {
                    lemma_parsed_name_is_plain(buf, behind, limit, used + 1 + size);
                    match parse_name_from(buf, behind, limit, used + 1 + size) {
                        Ok((rest, _)) => {
                            let labels = seq![label] + rest;
                            assert(labels.drop_first() =~= rest);
                            assert(labels[0] == label);
                            assert forall|i: int| 0 <= i < labels.len() implies 1 <= (
                            #[trigger] labels[i]).len() <= 63 && valid_utf8(labels[i]) by {
                                if i > 0 {
                                    assert(labels[i] == rest[i - 1]);
                                }
                            }
                        },
                        Err(_) => {},
                    }
                },
                Err(_) => {},
            }
        }
    }
}

/// Whether `cut` is `whole` or else fails for want of octets.
pub open spec fn spec_cut_short(
    cut: Result<(Seq<Seq<u8>>, int)>,
    whole: Result<(Seq<Seq<u8>>, int)>,
) -> bool {
    cut == whole || match cut {
        Err(e) => e.spec_is_truncated(),
        Ok(_) => false,
    }
}

/// Cutting a buffer short changes what is read of a name in one way only:
/// the reading may fail for want of octets.
pub proof fn lemma_name_prefix(buf: Seq<u8>, k: int, pos: int, limit: int, used: int)
    requires
        0 <= k <= buf.len(),
    ensures
        spec_cut_short(
            parse_name_from(buf.take(k), pos, limit, used),
            parse_name_from(buf, pos, limit, used),
        ),
    decreases limit, buf.len() - pos,
{
    let cut = buf.take(k);
    if spec_has(cut, pos, 1) {
        let size = cut[pos];
        if size == 0 {
        } else if size >= 192 {
            if spec_has(cut, pos, 2) {
                let target = spec_pointer(size, cut[pos + 1]);
                if target < limit {
                    lemma_name_prefix(buf, k, target, target, used);
                }
            }
        } else if size > 63 {
        } else {
            if spec_has(cut, pos + 1, size as int) {
                assert(cut.subrange(pos + 1, pos + 1 + size) =~= buf.subrange(
                    pos + 1,
                    pos + 1 + size,
                ));
                lemma_name_prefix(buf, k, pos + 1 + size, limit, used + 1 + size);
            }
        }
    }
}

/// A name that was read ends within the buffer, behind where it began.
pub proof fn lemma_name_within(buf: Seq<u8>, pos: int, limit: int, used: int)
    ensures
        parse_name_from(buf, pos, limit, used).is_ok() ==> 0 <= pos < parse_name_from(
            buf,
            pos,
            limit,
            used,
        ).unwrap().1 <= buf.len(),
    decreases limit, buf.len() - pos,
{
    if spec_has(buf, pos, 1) {
        let size = buf[pos];
        if 0 < size <= 63 && spec_has(buf, pos + 1, size as int) {
            lemma_name_within(buf, pos + 1 + size, limit, used + 1 + size);
        }
    }
}

/// A name that is nothing but a pointer reads as the name at the pointer's
/// target, and the position behind it is the position behind the pointer.
pub proof fn lemma_pointer_reads_target(buf: Seq<u8>, pos: int)
    requires
        spec_has(buf, pos, 2),
        buf[pos] >= 192,
        spec_pointer(buf[pos], buf[pos + 1]) < pos,
        parse_name(buf, spec_pointer(buf[pos], buf[pos + 1])).is_ok(),
    ensures
        parse_name(buf, pos) == Ok::<(Seq<Seq<u8>>, int), Error>(
            (parse_name(buf, spec_pointer(buf[pos], buf[pos + 1])).unwrap().0, pos + 2),
        ),
{
}

} // verus!
