//! The types of resource records and of queries.

use vstd::prelude::*;

verus! {

/// The TYPE and QTYPE codes of [RFC 1035 3.2.2 and 3.2.3](https://datatracker.ietf.org/doc/html/rfc1035#section-3.2.2), with AAAA.
#[allow(clippy::upper_case_acronyms)]
#[derive(Debug, Clone, Copy, PartialEq, Eq, Hash, Structural)]
pub enum QType {
    /// a host address (1)
    A,
    /// an authoritative name server (2)
    NS,
    /// a mail destination (obsolete, use MX) (3)
    MD,
    /// a mail forwarder (obsolete, use MX) (4)
    MF,
    /// the canonical name for an alias (5)
    CNAME,
    /// marks the start of a zone of authority (6)
    SOA,
    /// a mailbox domain name (experimental) (7)
    MB,
    /// a mail group member (experimental) (8)
    MG,
    /// a mail rename domain name (experimental) (9)
    MR,
    /// a null RR (experimental) (10)
    NULL,
    /// a well known service description (11)
    WKS,
    /// a domain name pointer (12)
    PTR,
    /// host information (13)
    HINFO,
    /// mailbox or mail list information (14)
    MINFO,
    /// mail exchange (15)
    MX,
    /// text strings (16)
    TXT,
    /// an IPv6 host address (see RFC 3596) (28)
    AAAA,
    /// a request for a transfer of an entire zone (252)
    AXFR,
    /// a request for mailbox-related records (MB, MG or MR) (253)
    MAILB,
    /// a request for mail agent RRs (obsolete, see MX) (254)
    MAILA,
    /// a request for all records (written "*" in RFC 1035) (255)
    ANY,
}

impl QType {
    /// The 16-bit code of this type on the wire.
    pub open spec fn spec_number(self) -> u16 {
        match self {
            QType::A => 1,
            QType::NS => 2,
            QType::MD => 3,
            QType::MF => 4,
            QType::CNAME => 5,
            QType::SOA => 6,
            QType::MB => 7,
            QType::MG => 8,
            QType::MR => 9,
            QType::NULL => 10,
            QType::WKS => 11,
            QType::PTR => 12,
            QType::HINFO => 13,
            QType::MINFO => 14,
            QType::MX => 15,
            QType::TXT => 16,
            QType::AAAA => 28,
            QType::AXFR => 252,
            QType::MAILB => 253,
            QType::MAILA => 254,
            QType::ANY => 255,
        }
    }

    /// The type that a 16-bit code stands for, if it stands for any.
    pub open spec fn spec_from(value: u16) -> Option<QType> {
        if value == 1 {
            Some(QType::A)
        } else if value == 2 {
            Some(QType::NS)
        } else if value == 3 {
            Some(QType::MD)
        } else if value == 4 {
            Some(QType::MF)
        } else if value == 5 {
            Some(QType::CNAME)
        } else if value == 6 {
            Some(QType::SOA)
        } else if value == 7 {
            Some(QType::MB)
        } else if value == 8 {
            Some(QType::MG)
        } else if value == 9 {
            Some(QType::MR)
        } else if value == 10 {
            Some(QType::NULL)
        } else if value == 11 {
            Some(QType::WKS)
        } else if value == 12 {
            Some(QType::PTR)
        } else if value == 13 {
            Some(QType::HINFO)
        } else if value == 14 {
            Some(QType::MINFO)
        } else if value == 15 {
            Some(QType::MX)
        } else if value == 16 {
            Some(QType::TXT)
        } else if value == 28 {
            Some(QType::AAAA)
        } else if value == 252 {
            Some(QType::AXFR)
        } else if value == 253 {
            Some(QType::MAILB)
        } else if value == 254 {
            Some(QType::MAILA)
        } else if value == 255 {
            Some(QType::ANY)
        } else {
            None
        }
    }

    /// The 16-bit code of this type on the wire.
    pub fn number(self) -> (n: u16)
        ensures
            n == self.spec_number(),
    {
        match self {
            QType::A => 1,
            QType::NS => 2,
            QType::MD => 3,
            QType::MF => 4,
            QType::CNAME => 5,
            QType::SOA => 6,
            QType::MB => 7,
            QType::MG => 8,
            QType::MR => 9,
            QType::NULL => 10,
            QType::WKS => 11,
            QType::PTR => 12,
            QType::HINFO => 13,
            QType::MINFO => 14,
            QType::MX => 15,
            QType::TXT => 16,
            QType::AAAA => 28,
            QType::AXFR => 252,
            QType::MAILB => 253,
            QType::MAILA => 254,
            QType::ANY => 255,
        }
    }

    /// Reads a type from its 16-bit code; `None` for a code that stands for
    /// none.
    pub fn from_u16(value: u16) -> (r: Option<QType>)
        ensures
            r == QType::spec_from(value),
    {
        if value == 1 {
            Some(QType::A)
        } else if value == 2 {
            Some(QType::NS)
        } else if value == 3 {
            Some(QType::MD)
        } else if value == 4 {
            Some(QType::MF)
        } else if value == 5 {
            Some(QType::CNAME)
        } else if value == 6 {
            Some(QType::SOA)
        } else if value == 7 {
            Some(QType::MB)
        } else if value == 8 {
            Some(QType::MG)
        } else if value == 9 {
            Some(QType::MR)
        } else if value == 10 {
            Some(QType::NULL)
        } else if value == 11 {
            Some(QType::WKS)
        } else if value == 12 {
            Some(QType::PTR)
        } else if value == 13 {
            Some(QType::HINFO)
        } else if value == 14 {
            Some(QType::MINFO)
        } else if value == 15 {
            Some(QType::MX)
        } else if value == 16 {
            Some(QType::TXT)
        } else if value == 28 {
            Some(QType::AAAA)
        } else if value == 252 {
            Some(QType::AXFR)
        } else if value == 253 {
            Some(QType::MAILB)
        } else if value == 254 {
            Some(QType::MAILA)
        } else if value == 255 {
            Some(QType::ANY)
        } else {
            None
        }
    }

    /// A code read back from the number of a type is that type.
    pub proof fn lemma_number_round_trip(self)
        ensures
            QType::spec_from(self.spec_number()) == Some(self),
    {
    }
}

/// A 16-bit code that stands for no type.
#[derive(Debug, Clone, Copy, PartialEq, Eq)]
pub struct UnknownType(pub u16);

impl TryFrom<u16> for QType {
    type Error = UnknownType;

    /// Reads a type from its 16-bit code, or fails with the code.
    fn try_from(value: u16) -> (r: Result<QType, UnknownType>) {
        match QType::from_u16(value) {
            Some(known) => Ok(known),
            None => Err(UnknownType(value)),
        }
    }
}

impl vstd::std_specs::convert::TryFromSpecImpl<u16> for QType {
    open spec fn obeys_try_from_spec() -> bool {
        true
    }

    open spec fn try_from_spec(value: u16) -> Result<QType, UnknownType> {
        match QType::spec_from(value) {
            Some(known) => Ok(known),
            None => Err(UnknownType(value)),
        }
    }
}

impl From<QType> for u16 {
    fn from(value: QType) -> (n: u16) {
        value.number()
    }
}

impl vstd::std_specs::convert::FromSpecImpl<QType> for u16 {
    open spec fn obeys_from_spec() -> bool {
        true
    }

    open spec fn from_spec(value: QType) -> u16 {
        value.spec_number()
    }
}

} // verus!
