//! Resource records: what a response carries.

use crate::cursor::{spec_has, Cursor};
use crate::dname;
use crate::dname::{join_dots, parse_name, DomainName};
use crate::qclass::QClass;
use crate::qtype::QType;
use crate::wire;
use crate::wire::{spec_u128_at, spec_u16_at, spec_u32_at};
use vstd::prelude::*;
use vstd::utf8::{encode_utf8, valid_utf8};

verus! {

/// What can go wrong while a record is read.
#[derive(Debug, Clone, Copy, PartialEq, Eq)]
pub enum Error {
    /// The buffer ended before the record did.
    Truncated,
    /// The owner's name, or the name in the data, could not be read.
    Name(dname::Error),
    /// A code that stands for no type.
    UnknownType(u16),
    /// A code that stands for no class.
    UnknownClass(u16),
    /// The declared length of the data does not fit the type: an address of
    /// another size, or a name that ends elsewhere.
    DataLength(u16),
}

pub type RecordError = Error;

pub type Result<T> = std::result::Result<T, Error>;

impl Error {
    /// Whether the error says that the buffer ended too early.
    pub open spec fn spec_is_truncated(self) -> bool {
        match self {
            Error::Truncated => true,
            Error::Name(e) => e.spec_is_truncated(),
            _ => false,
        }
    }

    /// Whether the error says that the buffer ended too early.
    pub fn is_truncated(&self) -> (b: bool)
        ensures
            b == self.spec_is_truncated(),
    {
        match self {
            Error::Truncated => true,
            Error::Name(e) => e.is_truncated(),
            _ => false,
        }
    }
}

/// An Internet address as one number, its first octet the most significant.
#[derive(Debug, Clone, Copy, PartialEq, Eq, Structural)]
pub enum IpAddress {
    /// The four octets of an IPv4 address.
    V4(u32),
    /// The sixteen octets of an IPv6 address.
    V6(u128),
}

/// A resource record.
#[derive(Debug, Clone, PartialEq, Eq)]
pub struct Record {
    /// The name that the record is about.
    pub name: DomainName,
    /// The type, which says what the data means.
    pub qtype: QType,
    /// The class of the data.
    pub class: QClass,
    /// For how many seconds the record may be cached.
    pub time_to_live: u32,
    /// The data: four octets of address for `A`, sixteen for `AAAA`, a name
    /// written with dots for `NS` and `CNAME`, and for every other type the
    /// octets as they came.
    pub rdata: Vec<u8>,
}

/// A record as a mathematical value.
pub ghost struct RecordView {
    pub name: Seq<Seq<u8>>,
    pub qtype: QType,
    pub class: QClass,
    pub time_to_live: u32,
    pub rdata: Seq<u8>,
}

impl View for Record {
    type V = RecordView;

    open spec fn view(&self) -> RecordView {
        RecordView {
            name: self.name@,
            qtype: self.qtype,
            class: self.class,
            time_to_live: self.time_to_live,
            rdata: self.rdata@,
        }
    }
}

/// The address that the data of a record of type `qtype` holds: the first
/// four octets for `A`, the first sixteen for `AAAA`, none for another type
/// or for data that is too short.
pub open spec fn spec_address(qtype: QType, rdata: Seq<u8>) -> Option<IpAddress> {
    if qtype == QType::A && rdata.len() >= 4 {
        Some(IpAddress::V4(spec_u32_at(rdata, 0)))
    } else if qtype == QType::AAAA && rdata.len() >= 16 {
        Some(IpAddress::V6(spec_u128_at(rdata, 0)))
    } else {
        None
    }
}

/// The data of a record of type `qtype` whose `len` octets stand at `at`.
pub open spec fn parse_rdata(buf: Seq<u8>, at: int, len: u16, qtype: QType) -> Result<Seq<u8>> {
    if !spec_has(buf, at, len as int) {
        Err(Error::Truncated)
    } else if qtype == QType::NS || qtype == QType::CNAME {
        match parse_name(buf, at) {
            Err(e) => Err(Error::Name(e)),
            Ok((labels, next)) => if next != at + len {
                Err(Error::DataLength(len))
            } else {
                Ok(join_dots(labels))
            },
        }
    } else if qtype == QType::A && len != 4 {
        Err(Error::DataLength(len))
    } else if qtype == QType::AAAA && len != 16 {
        Err(Error::DataLength(len))
    } else {
        Ok(buf.subrange(at, at + len))
    }
}

/// The record that `buf` holds at `pos`, and the position behind it: the
/// name, type and class in two octets each, the time to live in four, the
/// length of the data in two, and the data.
pub open spec fn parse_record(buf: Seq<u8>, pos: int) -> Result<(RecordView, int)> {
    match parse_name(buf, pos) {
        Err(e) => Err(Error::Name(e)),
        Ok((name, at)) => {
            if !spec_has(buf, at, 2) {
                Err(Error::Truncated)
            } else {
                match QType::spec_from(spec_u16_at(buf, at)) {
                    None => Err(Error::UnknownType(spec_u16_at(buf, at))),
                    Some(qtype) => {
                        if !spec_has(buf, at + 2, 2) {
                            Err(Error::Truncated)
                        } else {
                            match QClass::spec_from(spec_u16_at(buf, at + 2)) {
                                None => Err(Error::UnknownClass(spec_u16_at(buf, at + 2))),
                                Some(class) => {
                                    if !spec_has(buf, at + 4, 6) {
                                        Err(Error::Truncated)
                                    } else {
                                        let len = spec_u16_at(buf, at + 8);
                                        match parse_rdata(buf, at + 10, len, qtype) {
                                            Err(e) => Err(e),
                                            Ok(rdata) => Ok(
                                                (
                                                    RecordView {
                                                        name,
                                                        qtype,
                                                        class,
                                                        time_to_live: spec_u32_at(buf, at + 4),
                                                        rdata,
                                                    },
                                                    at + 10 + len,
                                                ),
                                            ),
                                        }
                                    }
                                },
                            }
                        }
                    },
                }
            }
        },
    }
}

/// Whether `cut` is `whole` or else fails for want of octets.
pub open spec fn spec_cut_short(
    cut: Result<(RecordView, int)>,
    whole: Result<(RecordView, int)>,
) -> bool {
    cut == whole || match cut {
        Err(e) => e.spec_is_truncated(),
        Ok(_) => false,
    }
}

impl Record {
    /// The data as text, where it is UTF-8.
    pub fn text(&self) -> (r: Option<&str>)
        ensures
            r.is_some() == valid_utf8(self.rdata@),
            r.is_some() ==> encode_utf8(r.unwrap()@) == self.rdata@,
    {
        dname::text_of(self.rdata.as_slice())
    }

    /// The data as text. Data that is not UTF-8 has none.
    pub fn data_as_str(&self) -> (text: &str)
        requires
            valid_utf8(self.rdata@),
        ensures
            encode_utf8(text@) == self.rdata@,
    {
        match dname::text_of(self.rdata.as_slice()) {
            Some(text) => text,
            None => {
                proof {
                    assert(false);
                }
                ""
            },
        }
    }

    /// The address in the data, where the record holds one.
    pub fn address(&self) -> (r: Option<IpAddress>)
        ensures
            r == spec_address(self.qtype, self.rdata@),
    {
        match self.qtype {
            QType::A => {
                if self.rdata.len() >= 4 {
                    Some(IpAddress::V4(wire::read_u32(self.rdata.as_slice())))
                } else {
                    None
                }
            },
            QType::AAAA => {
                if self.rdata.len() >= 16 {
                    Some(IpAddress::V6(wire::read_u128(self.rdata.as_slice())))
                } else {
                    None
                }
            },
            _ => None,
        }
    }

    /// The address in the data of a record that holds one.
    pub fn data_as_ip_addr(&self) -> (addr: IpAddress)
        requires
            spec_address(self.qtype, self.rdata@).is_some(),
        ensures
            Some(addr) == spec_address(self.qtype, self.rdata@),
    {
        match self.address() {
            Some(addr) => addr,
            None => {
                proof {
                    assert(false);
                }
                IpAddress::V4(0)
            },
        }
    }

    /// Reads the data of a record of type `qtype` and of `len` octets at the
    /// cursor, and steps over it. On an error the cursor stays where it was.
    pub fn read_data(bytes: &mut Cursor, len: u16, qtype: QType) -> (r: Result<Vec<u8>>)
        ensures
            final(bytes).bytes == old(bytes).bytes,
            match parse_rdata(old(bytes).bytes@, old(bytes).pos as int, len, qtype) {
                Ok(rdata) => r.is_ok() && r.unwrap()@ == rdata && final(bytes).pos == old(
                    bytes,
                ).pos + len,
                Err(e) => r == Err::<Vec<u8>, Error>(e) && final(bytes).pos == old(bytes).pos,
            },
    {
        let start = bytes.pos;
        if !bytes.has(len as usize) {
            return Err(Error::Truncated);
        }
        match qtype {
            QType::NS | QType::CNAME => {
                let name = match DomainName::from_bytes(bytes) {
                    Ok(name) => name,
                    Err(e) => {
                        return Err(Error::Name(e));
                    },
                };
                if bytes.pos != start + len as usize {
                    bytes.pos = start;
                    return Err(Error::DataLength(len));
                }
                Ok(name.to_text())
            },
            _ => {
                if matches!(qtype, QType::A) && len != 4 {
                    return Err(Error::DataLength(len));
                }
                if matches!(qtype, QType::AAAA) && len != 16 {
                    return Err(Error::DataLength(len));
                }
                match bytes.read_bytes(len as usize) {
                    Some(data) => Ok(data),
                    None => Err(Error::Truncated),
                }
            },
        }
    }

    /// Decodes a record at the cursor and steps over it. On an error the
    /// cursor stays where it was.
    pub fn from_bytes(bytes: &mut Cursor) -> (r: Result<Self>)
        ensures
            final(bytes).bytes == old(bytes).bytes,
            match parse_record(old(bytes).bytes@, old(bytes).pos as int) {
                Ok((rec, next)) => r.is_ok() && r.unwrap()@ == rec && final(bytes).pos == next,
                Err(e) => r == Err::<Record, Error>(e) && final(bytes).pos == old(bytes).pos,
            },
    {
        let start = bytes.pos;
        let name = match DomainName::from_bytes(bytes) {
            Ok(name) => name,
            Err(e) => {
                return Err(Error::Name(e));
            },
        };
        let type_code: u16 = match bytes.read_u16() {
            Some(code) => code,
            None => {
                bytes.pos = start;
                return Err(Error::Truncated);
            },
        };
        let qtype = match QType::from_u16(type_code) {
            Some(qtype) => qtype,
            None => {
                bytes.pos = start;
                return Err(Error::UnknownType(type_code));
            },
        };
        let class_code: u16 = match bytes.read_u16() {
            Some(code) => code,
            None => {
                bytes.pos = start;
                return Err(Error::Truncated);
            },
        };
        let class = match QClass::from_u16(class_code) {
            Some(class) => class,
            None => {
                bytes.pos = start;
                return Err(Error::UnknownClass(class_code));
            },
        };
        if !bytes.has(6) {
            bytes.pos = start;
            return Err(Error::Truncated);
        }
        let time_to_live: u32 = match bytes.read_u32() {
            Some(ttl) => ttl,
            None => {
                bytes.pos = start;
                return Err(Error::Truncated);
            },
        };
        let len: u16 = match bytes.read_u16() {
            Some(len) => len,
            None => {
                bytes.pos = start;
                return Err(Error::Truncated);
            },
        };
        let rdata = match Record::read_data(bytes, len, qtype) {
            Ok(rdata) => rdata,
            Err(e) => {
                bytes.pos = start;
                return Err(e);
            },
        };
        Ok(Record { name, qtype, class, time_to_live, rdata })
    }
}

/// The data of a record that was read fits its type: four octets for `A`
/// and sixteen for `AAAA`, so that a record of either type holds an address.
pub proof fn lemma_parsed_record_data(buf: Seq<u8>, pos: int)
    ensures
        match parse_record(buf, pos) {
            Ok((rec, _)) => {
                &&& rec.qtype == QType::A ==> rec.rdata.len() == 4
                &&& rec.qtype == QType::AAAA ==> rec.rdata.len() == 16
                &&& rec.qtype == QType::A || rec.qtype == QType::AAAA ==> spec_address(
                    rec.qtype,
                    rec.rdata,
                ).is_some()
            },
            Err(_) => true,
        },
{
}

/// Cutting a buffer short changes what is read of a record in one way only:
/// the reading may fail for want of octets.
pub proof fn lemma_record_prefix(buf: Seq<u8>, k: int, pos: int)
    requires
        0 <= k <= buf.len(),
    ensures
        spec_cut_short(parse_record(buf.take(k), pos), parse_record(buf, pos)),
{
    let cut = buf.take(k);
    dname::lemma_name_prefix(buf, k, pos, pos, 0);
    dname::lemma_name_within(cut, pos, pos, 0);
    match parse_name(cut, pos) {
        Ok((name, at)) => {
            if spec_has(cut, at + 4, 6) {
                let len = spec_u16_at(cut, at + 8);
                if spec_has(cut, at + 10, len as int) {
                    dname::lemma_name_prefix(buf, k, at + 10, at + 10, 0);
                    assert(cut.subrange(at + 10, at + 10 + len) =~= buf.subrange(
                        at + 10,
                        at + 10 + len,
                    ));
                }
            }
        },
        Err(_) => {},
    }
}

/// A record that was read ends within the buffer, behind where it began.
pub proof fn lemma_record_within(buf: Seq<u8>, pos: int)
    ensures
        parse_record(buf, pos).is_ok() ==> 0 <= pos < parse_record(buf, pos).unwrap().1
            <= buf.len(),
{
    dname::lemma_name_within(buf, pos, pos, 0);
}

} // verus!
