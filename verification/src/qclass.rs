//! The classes of resource records and of queries.

use vstd::prelude::*;

verus! {

/// The CLASS and QCLASS codes of [RFC 1035 3.2.4 and 3.2.5](https://datatracker.ietf.org/doc/html/rfc1035#section-3.2.4).
#[allow(clippy::upper_case_acronyms)]
#[derive(Debug, Clone, Copy, PartialEq, Eq, Hash, Structural)]
pub enum QClass {
    /// the Internet (1)
    IN,
    /// the CSNET class (obsolete) (2)
    CS,
    /// the CHAOS class (3)
    CH,
    /// Hesiod (4)
    HS,
    /// any class (written "*" in RFC 1035) (255)
    ALL,
}

impl QClass {
    /// The 16-bit code of this class on the wire.
    pub open spec fn spec_number(self) -> u16 {
        match self {
            QClass::IN => 1,
            QClass::CS => 2,
            QClass::CH => 3,
            QClass::HS => 4,
            QClass::ALL => 255,
        }
    }

    /// The class that a 16-bit code stands for, if it stands for any.
    pub open spec fn spec_from(value: u16) -> Option<QClass> {
        if value == 1 {
            Some(QClass::IN)
        } else if value == 2 {
            Some(QClass::CS)
        } else if value == 3 {
            Some(QClass::CH)
        } else if value == 4 {
            Some(QClass::HS)
        } else if value == 255 {
            Some(QClass::ALL)
        } else {
            None
        }
    }

    /// The 16-bit code of this class on the wire.
    pub fn number(self) -> (n: u16)
        ensures
            n == self.spec_number(),
    {
        match self {
            QClass::IN => 1,
            QClass::CS => 2,
            QClass::CH => 3,
            QClass::HS => 4,
            QClass::ALL => 255,
        }
    }

    /// Reads a class from its 16-bit code; `None` for a code that stands for
    /// none.
    pub fn from_u16(value: u16) -> (r: Option<QClass>)
        ensures
            r == QClass::spec_from(value),
    {
        if value == 1 {
            Some(QClass::IN)
        } else if value == 2 {
            Some(QClass::CS)
        } else if value == 3 {
            Some(QClass::CH)
        } else if value == 4 {
            Some(QClass::HS)
        } else if value == 255 {
            Some(QClass::ALL)
        } else {
            None
        }
    }

    /// A code read back from the number of a class is that class.
    pub proof fn lemma_number_round_trip(self)
        ensures
            QClass::spec_from(self.spec_number()) == Some(self),
    {
    }
}

/// A 16-bit code that stands for no class.
#[derive(Debug, Clone, Copy, PartialEq, Eq)]
pub struct UnknownClass(pub u16);

impl TryFrom<u16> for QClass {
    type Error = UnknownClass;

    /// Reads a class from its 16-bit code, or fails with the code.
    fn try_from(value: u16) -> (r: Result<QClass, UnknownClass>) {
        match QClass::from_u16(value) {
            Some(known) => Ok(known),
            None => Err(UnknownClass(value)),
        }
    }
}

impl vstd::std_specs::convert::TryFromSpecImpl<u16> for QClass {
    open spec fn obeys_try_from_spec() -> bool {
        true
    }

    open spec fn try_from_spec(value: u16) -> Result<QClass, UnknownClass> {
        match QClass::spec_from(value) {
            Some(known) => Ok(known),
            None => Err(UnknownClass(value)),
        }
    }
}

impl From<QClass> for u16 {
    fn from(value: QClass) -> (n: u16) {
        value.number()
    }
}

impl vstd::std_specs::convert::FromSpecImpl<QClass> for u16 {
    open spec fn obeys_from_spec() -> bool {
        true
    }

    open spec fn from_spec(value: QClass) -> u16 {
        value.spec_number()
    }
}

} // verus!
