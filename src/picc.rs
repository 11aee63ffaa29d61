//! The PICC (short for Proximity Integrated Circuit Card) is a card or tag
//! using the ISO 14443A interface, eg Mifare or NTAG203.

use vstd::prelude::*;

verus! {

/// Commands that can be sent to the PICC.
///
/// The commands used for MIFARE Classic begin with **Mf**,
/// those used for MIFARE Ultralight with **Ul**.
#[derive(Debug, Clone, Copy, PartialEq, Eq, Structural)]
pub enum Command {
    /// REQuest command, Type A. Invites PICCs in state IDLE to go to READY
    /// and prepare for anticollision or selection. 7 bit frame.
    ReqA,
    /// Wake-UP command, Type A. Invites PICCs in state IDLE and HALT to go to READY
    /// and prepare for anticollision or selection. 7 bit frame.
    WupA,
    /// Cascade Tag. Not really a command, but used during anti collision.
    CT,
    /// Anti collision/Select, Cascade Level 1
    SelCl1,
    /// Anti collision/Select, Cascade Level 2
    SelCl2,
    /// Anti collision/Select, Cascade Level 3
    SelCl3,
    /// HaLT command, Type A. Instructs an ACTIVE PICC to go to state HALT.
    HltA,
    /// Request command for Answer To Select.
    RAtS,
    /// Perform authentication with Key A
    MfAuthKeyA,
    /// Perform authentication with Key B
    MfAuthKeyB,
    /// Reads one 16 byte block from the authenticated sector of the PICC.
    MfRead,
    /// Writes one 16 byte block to the authenticated sector of the PICC.
    MfWrite,
    /// Decrements the contents of a block and stores the result in the internal data register.
    MfDecrement,
    /// Increments the contents of a block and stores the result in the internal data register.
    MfIncrement,
    /// Reads the contents of a block into the internal data register.
    MfRestore,
    /// Writes the contents of the internal data register to a block.
    MfTransfer,
    /// Writes one 4 byte page to the PICC.
    UlWrite,
}

impl Command {
    /// The byte that encodes the command on the air interface.
    pub open spec fn spec_code(self) -> u8 {
        match self {
            Command::ReqA => 0x26,
            Command::WupA => 0x52,
            Command::CT => 0x88,
            Command::SelCl1 => 0x93,
            Command::SelCl2 => 0x95,
            Command::SelCl3 => 0x97,
            Command::HltA => 0x50,
            Command::RAtS => 0xE0,
            Command::MfAuthKeyA => 0x60,
            Command::MfAuthKeyB => 0x61,
            Command::MfRead => 0x30,
            Command::MfWrite => 0xA0,
            Command::MfDecrement => 0xC0,
            Command::MfIncrement => 0xC1,
            Command::MfRestore => 0xC2,
            Command::MfTransfer => 0xB0,
            Command::UlWrite => 0xA2,
        }
    }

    /// The byte that encodes the command on the air interface.
    #[verifier::when_used_as_spec(spec_code)]
    pub fn code(self) -> (r: u8)
        ensures
            r == self.spec_code(),
    {
        match self {
            Command::ReqA => 0x26,
            Command::WupA => 0x52,
            Command::CT => 0x88,
            Command::SelCl1 => 0x93,
            Command::SelCl2 => 0x95,
            Command::SelCl3 => 0x97,
            Command::HltA => 0x50,
            Command::RAtS => 0xE0,
            Command::MfAuthKeyA => 0x60,
            Command::MfAuthKeyB => 0x61,
            Command::MfRead => 0x30,
            Command::MfWrite => 0xA0,
            Command::MfDecrement => 0xC0,
            Command::MfIncrement => 0xC1,
            Command::MfRestore => 0xC2,
            Command::MfTransfer => 0xB0,
            Command::UlWrite => 0xA2,
        }
    }
}

/// PICC Type
#[derive(Debug, Clone, Copy, PartialEq, Eq, Structural)]
pub enum Type {
    Unknown,
    /// PICC compliant with ISO/IEC 14443-4
    Iso14443_4,
    /// PICC compliant with ISO/IEC 18092 (NFC)
    Iso18092,
    /// MIFARE Classic protocol, 320 bytes
    MifareMini,
    /// MIFARE Classic protocol, 1KB
    Mifare1k,
    /// MIFARE Classic protocol, 4KB
    Mifare4k,
    /// MIFARE Ultralight or Ultralight C
    MifareUL,
    /// MIFARE Plus
    MifarePlus,
    /// MIFARE DESFire
    MifareDesfire,
    /// Only mentioned in NXP AN 10833 MIFARE Type Identification Procedure
    TNP3XXX,
    /// SAK indicates UID is not complete.
    NotComplete,
}

/// The card type that a SAK byte announces (NXP AN10833, coding of SAK).
/// The most significant bit is ignored.
pub open spec fn type_of_sak(byte: u8) -> Type {
    let b = byte & 0x7F;
    if b == 0x04 {
        Type::NotComplete
    } else if b == 0x09 {
        Type::MifareMini
    } else if b == 0x08 {
        Type::Mifare1k
    } else if b == 0x18 {
        Type::Mifare4k
    } else if b == 0x00 {
        Type::MifareUL
    } else if b == 0x10 || b == 0x11 {
        Type::MifarePlus
    } else if b == 0x01 {
        Type::TNP3XXX
    } else if b == 0x20 {
        Type::Iso14443_4
    } else if b == 0x40 {
        Type::Iso18092
    } else {
        Type::Unknown
    }
}

/// Select Acknowledge
#[derive(Debug, Clone, Copy, PartialEq, Eq, Structural)]
pub struct Sak {
    pub byte: u8,
}

impl Sak {
    /// The card type announced by the SAK; a best-effort classification.
    pub fn get_type(&self) -> (r: Type)
        ensures
            r == type_of_sak(self.byte),
    {
        let b = self.byte & 0x7F;
        if b == 0x04 {
            Type::NotComplete
        } else if b == 0x09 {
            Type::MifareMini
        } else if b == 0x08 {
            Type::Mifare1k
        } else if b == 0x18 {
            Type::Mifare4k
        } else if b == 0x00 {
            Type::MifareUL
        } else if b == 0x10 || b == 0x11 {
            Type::MifarePlus
        } else if b == 0x01 {
            Type::TNP3XXX
        } else if b == 0x20 {
            Type::Iso14443_4
        } else if b == 0x40 {
            Type::Iso18092
        } else {
            Type::Unknown
        }
    }

    /// Whether the SAK announces a PICC compliant with ISO/IEC 14443-4 (bit 6 set).
    pub open spec fn spec_is_compliant(&self) -> bool {
        self.byte & 0x20 != 0
    }

    /// Is the PICC compliant with ISO/IEC 14443-4
    #[verifier::when_used_as_spec(spec_is_compliant)]
    pub fn is_compliant(&self) -> (r: bool)
        ensures
            r == self.spec_is_compliant(),
    {
        self.byte & 0x20 != 0
    }

    /// Whether the SAK says that the UID is complete (the cascade bit, bit 3, is clear).
    pub open spec fn spec_is_complete(&self) -> bool {
        self.byte & 0x04 == 0
    }

    /// Does the SAK indicate the UID has been completely received
    #[verifier::when_used_as_spec(spec_is_complete)]
    pub fn is_complete(&self) -> (r: bool)
        ensures
            r == self.spec_is_complete(),
    {
        self.byte & 0x04 == 0
    }
}

impl From<u8> for Sak {
    fn from(byte: u8) -> (r: Sak) {
        Sak { byte }
    }
}

impl vstd::std_specs::convert::FromSpecImpl<u8> for Sak {
    open spec fn obeys_from_spec() -> bool {
        true
    }

    open spec fn from_spec(byte: u8) -> Sak {
        Sak { byte }
    }
}

} // verus!
