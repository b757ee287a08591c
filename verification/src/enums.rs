//! Code points of the TLS record and alert protocols.

use vstd::prelude::*;
use vstd::std_specs::convert::FromSpecImpl;

verus! {

/// The content type of a TLS record or message.
#[derive(Clone, Copy, Debug, PartialEq, Eq, Structural)]
pub enum ContentType {
    ChangeCipherSpec,
    Alert,
    Handshake,
    ApplicationData,
    Heartbeat,
    Unknown(u8),
}

impl ContentType {
    /// The content type that a byte on the wire stands for.
    pub open spec fn of(x: u8) -> ContentType {
        if x == 0x14 {
            ContentType::ChangeCipherSpec
        } else if x == 0x15 {
            ContentType::Alert
        } else if x == 0x16 {
            ContentType::Handshake
        } else if x == 0x17 {
            ContentType::ApplicationData
        } else if x == 0x18 {
            ContentType::Heartbeat
        } else {
            ContentType::Unknown(x)
        }
    }

    /// The byte that stands for this content type on the wire.
    pub open spec fn byte(self) -> u8 {
        match self {
            ContentType::ChangeCipherSpec => 0x14,
            ContentType::Alert => 0x15,
            ContentType::Handshake => 0x16,
            ContentType::ApplicationData => 0x17,
            ContentType::Heartbeat => 0x18,
            ContentType::Unknown(x) => x,
        }
    }

    /// Encodes this content type.
    pub fn to_byte(self) -> (r: u8)
        ensures
            r == self.byte(),
    {
        match self {
            ContentType::ChangeCipherSpec => 0x14,
            ContentType::Alert => 0x15,
            ContentType::Handshake => 0x16,
            ContentType::ApplicationData => 0x17,
            ContentType::Heartbeat => 0x18,
            ContentType::Unknown(x) => x,
        }
    }
}

impl From<u8> for ContentType {
    fn from(x: u8) -> (r: Self) {
        match x {
            0x14 => ContentType::ChangeCipherSpec,
            0x15 => ContentType::Alert,
            0x16 => ContentType::Handshake,
            0x17 => ContentType::ApplicationData,
            0x18 => ContentType::Heartbeat,
            _ => ContentType::Unknown(x),
        }
    }
}

impl FromSpecImpl<u8> for ContentType {
    open spec fn obeys_from_spec() -> bool {
        true
    }

    open spec fn from_spec(x: u8) -> Self {
        ContentType::of(x)
    }
}

/// Every byte is the encoding of the content type it stands for.
pub proof fn law_content_type_round_trip(x: u8)
    ensures
        ContentType::of(x).byte() == x,
{
}

/// A protocol version as it appears in record headers.
#[derive(Clone, Copy, Debug, PartialEq, Eq, Structural)]
pub enum ProtocolVersion {
    SSLv3,
    TLSv1_0,
    TLSv1_1,
    TLSv1_2,
    TLSv1_3,
    Unknown(u16),
}

impl ProtocolVersion {
    /// The version that a code point on the wire stands for.
    pub open spec fn of(x: u16) -> ProtocolVersion {
        if x == 0x0300 {
            ProtocolVersion::SSLv3
        } else if x == 0x0301 {
            ProtocolVersion::TLSv1_0
        } else if x == 0x0302 {
            ProtocolVersion::TLSv1_1
        } else if x == 0x0303 {
            ProtocolVersion::TLSv1_2
        } else if x == 0x0304 {
            ProtocolVersion::TLSv1_3
        } else {
            ProtocolVersion::Unknown(x)
        }
    }

    /// The code point of this version.
    pub open spec fn code(self) -> u16 {
        match self {
            ProtocolVersion::SSLv3 => 0x0300,
            ProtocolVersion::TLSv1_0 => 0x0301,
            ProtocolVersion::TLSv1_1 => 0x0302,
            ProtocolVersion::TLSv1_2 => 0x0303,
            ProtocolVersion::TLSv1_3 => 0x0304,
            ProtocolVersion::Unknown(x) => x,
        }
    }

    /// The code point of this version.
    pub fn to_code(self) -> (r: u16)
        ensures
            r == self.code(),
    {
        match self {
            ProtocolVersion::SSLv3 => 0x0300,
            ProtocolVersion::TLSv1_0 => 0x0301,
            ProtocolVersion::TLSv1_1 => 0x0302,
            ProtocolVersion::TLSv1_2 => 0x0303,
            ProtocolVersion::TLSv1_3 => 0x0304,
            ProtocolVersion::Unknown(x) => x,
        }
    }
}

impl From<u16> for ProtocolVersion {
    fn from(x: u16) -> (r: Self) {
        match x {
            0x0300 => ProtocolVersion::SSLv3,
            0x0301 => ProtocolVersion::TLSv1_0,
            0x0302 => ProtocolVersion::TLSv1_1,
            0x0303 => ProtocolVersion::TLSv1_2,
            0x0304 => ProtocolVersion::TLSv1_3,
            _ => ProtocolVersion::Unknown(x),
        }
    }
}

impl FromSpecImpl<u16> for ProtocolVersion {
    open spec fn obeys_from_spec() -> bool {
        true
    }

    open spec fn from_spec(x: u16) -> Self {
        ProtocolVersion::of(x)
    }
}

/// The level of an alert.
#[derive(Clone, Copy, Debug, PartialEq, Eq, Structural)]
pub enum AlertLevel {
    Warning,
    Fatal,
    Unknown(u8),
}

impl AlertLevel {
    /// The level that a byte on the wire stands for.
    pub open spec fn of(x: u8) -> AlertLevel {
        if x == 1 {
            AlertLevel::Warning
        } else if x == 2 {
            AlertLevel::Fatal
        } else {
            AlertLevel::Unknown(x)
        }
    }

    /// The byte that stands for this level on the wire.
    pub open spec fn byte(self) -> u8 {
        match self {
            AlertLevel::Warning => 1,
            AlertLevel::Fatal => 2,
            AlertLevel::Unknown(x) => x,
        }
    }

    /// Encodes this level.
    pub fn to_byte(self) -> (r: u8)
        ensures
            r == self.byte(),
    {
        match self {
            AlertLevel::Warning => 1,
            AlertLevel::Fatal => 2,
            AlertLevel::Unknown(x) => x,
        }
    }

    /// Decodes a level.
    pub fn from_byte(x: u8) -> (r: Self)
        ensures
            r == AlertLevel::of(x),
    {
        match x {
            1 => AlertLevel::Warning,
            2 => AlertLevel::Fatal,
            _ => AlertLevel::Unknown(x),
        }
    }
}

/// The description of an alert.
#[derive(Clone, Copy, Debug, PartialEq, Eq, Structural)]
pub enum AlertDescription {
    CloseNotify,
    UnexpectedMessage,
    BadRecordMac,
    RecordOverflow,
    HandshakeFailure,
    IllegalParameter,
    DecodeError,
    DecryptError,
    ProtocolVersion,
    InternalError,
    UserCanceled,
    Unknown(u8),
}

impl AlertDescription {
    /// The description that a byte on the wire stands for.
    pub open spec fn of(x: u8) -> AlertDescription {
        if x == 0 {
            AlertDescription::CloseNotify
        } else if x == 10 {
            AlertDescription::UnexpectedMessage
        } else if x == 20 {
            AlertDescription::BadRecordMac
        } else if x == 22 {
            AlertDescription::RecordOverflow
        } else if x == 40 {
            AlertDescription::HandshakeFailure
        } else if x == 47 {
            AlertDescription::IllegalParameter
        } else if x == 50 {
            AlertDescription::DecodeError
        } else if x == 51 {
            AlertDescription::DecryptError
        } else if x == 70 {
            AlertDescription::ProtocolVersion
        } else if x == 80 {
            AlertDescription::InternalError
        } else if x == 90 {
            AlertDescription::UserCanceled
        } else {
            AlertDescription::Unknown(x)
        }
    }

    /// The byte that stands for this description on the wire.
    pub open spec fn byte(self) -> u8 {
        match self {
            AlertDescription::CloseNotify => 0,
            AlertDescription::UnexpectedMessage => 10,
            AlertDescription::BadRecordMac => 20,
            AlertDescription::RecordOverflow => 22,
            AlertDescription::HandshakeFailure => 40,
            AlertDescription::IllegalParameter => 47,
            AlertDescription::DecodeError => 50,
            AlertDescription::DecryptError => 51,
            AlertDescription::ProtocolVersion => 70,
            AlertDescription::InternalError => 80,
            AlertDescription::UserCanceled => 90,
            AlertDescription::Unknown(x) => x,
        }
    }

    /// Encodes this description.
    pub fn to_byte(self) -> (r: u8)
        ensures
            r == self.byte(),
    {
        match self {
            AlertDescription::CloseNotify => 0,
            AlertDescription::UnexpectedMessage => 10,
            AlertDescription::BadRecordMac => 20,
            AlertDescription::RecordOverflow => 22,
            AlertDescription::HandshakeFailure => 40,
            AlertDescription::IllegalParameter => 47,
            AlertDescription::DecodeError => 50,
            AlertDescription::DecryptError => 51,
            AlertDescription::ProtocolVersion => 70,
            AlertDescription::InternalError => 80,
            AlertDescription::UserCanceled => 90,
            AlertDescription::Unknown(x) => x,
        }
    }

    /// Decodes a description.
    pub fn from_byte(x: u8) -> (r: Self)
        ensures
            r == AlertDescription::of(x),
    {
        match x {
            0 => AlertDescription::CloseNotify,
            10 => AlertDescription::UnexpectedMessage,
            20 => AlertDescription::BadRecordMac,
            22 => AlertDescription::RecordOverflow,
            40 => AlertDescription::HandshakeFailure,
            47 => AlertDescription::IllegalParameter,
            50 => AlertDescription::DecodeError,
            51 => AlertDescription::DecryptError,
            70 => AlertDescription::ProtocolVersion,
            80 => AlertDescription::InternalError,
            90 => AlertDescription::UserCanceled,
            _ => AlertDescription::Unknown(x),
        }
    }
}

/// Which end of the connection this is.
#[derive(Clone, Copy, Debug, PartialEq, Eq, Structural)]
pub enum Side {
    Client,
    Server,
}

/// The content types of TLS are the numbers from 20 to 24, in their order; every other byte stands
/// for none of them.
pub proof fn law_content_type_numbers(typ: ContentType, x: u8)
    ensures
        typ == ContentType::ChangeCipherSpec ==> typ.byte() == 20,
        typ == ContentType::Alert ==> typ.byte() == 21,
        typ == ContentType::Handshake ==> typ.byte() == 22,
        typ == ContentType::ApplicationData ==> typ.byte() == 23,
        typ == ContentType::Heartbeat ==> typ.byte() == 24,
        ContentType::of(x) is Unknown <==> !(20 <= x <= 24),
        !(ContentType::of(x) is Unknown) && ContentType::of(x).byte() == typ.byte() && !(
        typ is Unknown) ==> ContentType::of(x) == typ,
        ContentType::of(x).byte() == x,
{
}

/// The versions of SSL 3 and TLS are the numbers from 0x0300 to 0x0304, in their order; every other
/// number stands for none of them.
pub proof fn law_version_numbers(version: ProtocolVersion, x: u16)
    ensures
        version == ProtocolVersion::SSLv3 ==> version.code() == 0x0300,
        version == ProtocolVersion::TLSv1_0 ==> version.code() == 0x0301,
        version == ProtocolVersion::TLSv1_1 ==> version.code() == 0x0302,
        version == ProtocolVersion::TLSv1_2 ==> version.code() == 0x0303,
        version == ProtocolVersion::TLSv1_3 ==> version.code() == 0x0304,
        ProtocolVersion::of(x) is Unknown <==> !(0x0300 <= x <= 0x0304),
        ProtocolVersion::of(x).code() == x,
        !(version is Unknown) ==> ProtocolVersion::of(version.code()) == version,
{
}

/// A warning is alert level 1, and a fatal alert level 2; every other byte is an unknown level.
pub proof fn law_alert_level_numbers(level: AlertLevel, x: u8)
    ensures
        level == AlertLevel::Warning ==> level.byte() == 1,
        level == AlertLevel::Fatal ==> level.byte() == 2,
        AlertLevel::of(x) is Unknown <==> x != 1 && x != 2,
        AlertLevel::of(x).byte() == x,
        !(level is Unknown) ==> AlertLevel::of(level.byte()) == level,
{
}

/// The descriptions of alerts have the numbers that TLS gives them, and a number that is none of
/// these is kept as it is.
pub proof fn law_alert_description_numbers(description: AlertDescription, x: u8)
    ensures
        description == AlertDescription::CloseNotify ==> description.byte() == 0,
        description == AlertDescription::UnexpectedMessage ==> description.byte() == 10,
        description == AlertDescription::BadRecordMac ==> description.byte() == 20,
        description == AlertDescription::RecordOverflow ==> description.byte() == 22,
        description == AlertDescription::HandshakeFailure ==> description.byte() == 40,
        description == AlertDescription::IllegalParameter ==> description.byte() == 47,
        description == AlertDescription::DecodeError ==> description.byte() == 50,
        description == AlertDescription::DecryptError ==> description.byte() == 51,
        description == AlertDescription::ProtocolVersion ==> description.byte() == 70,
        description == AlertDescription::InternalError ==> description.byte() == 80,
        description == AlertDescription::UserCanceled ==> description.byte() == 90,
        AlertDescription::of(x).byte() == x,
        !(description is Unknown) ==> AlertDescription::of(description.byte()) == description,
        AlertDescription::of(x) == AlertDescription::Unknown(x) <==> x != 0 && x != 10 && x != 20
            && x != 22 && x != 40 && x != 47 && x != 50 && x != 51 && x != 70 && x != 80 && x != 90,
{
}

} // verus!
