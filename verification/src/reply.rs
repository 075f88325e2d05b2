//! Replies that a PD sends.

use vstd::prelude::*;
use vstd::slice::slice_to_vec;

use crate::bytes;
use crate::bytes::{append, array_at, range};
use crate::error::Error;

verus! {

/// Reply codes.
#[derive(Debug, Clone, Copy, PartialEq, Eq, Structural)]
pub enum ReplyCode {
    /// `osdp_ACK`.
    Ack,
    /// `osdp_NAK`.
    Nak,
    /// `osdp_PDID`.
    PdId,
    /// `osdp_PDCAP`.
    PdCap,
    /// `osdp_LSTATR`.
    LStatR,
    /// `osdp_ISTATR`.
    IStatR,
    /// `osdp_OSTATR`.
    OStatR,
    /// `osdp_RSTATR`.
    RStatR,
    /// `osdp_RAW`.
    RawRead,
    /// `osdp_FMT`.
    Fmt,
    /// `osdp_KEYPAD`.
    Keypad,
    /// `osdp_COM`.
    Com,
    /// `osdp_BIOREADR`.
    BioReadR,
    /// `osdp_BIOMATCHR`.
    BioMatchR,
    /// `osdp_CCRYPT`.
    CCrypt,
    /// `osdp_RMAC_I`.
    RMacI,
    /// `osdp_BUSY`.
    Busy,
    /// `osdp_FTSTAT`.
    FtStat,
    /// `osdp_PIVDATAR`.
    PivDataR,
    /// `osdp_GENAUTHR`.
    GenAuthR,
    /// `osdp_CRAUTHR`.
    CrAuthR,
    /// `osdp_MFGSTATR`.
    MfgStatR,
    /// `osdp_MFGERRR`.
    MfgErrR,
    /// `osdp_MFGREP`.
    MfgRep,
    /// `osdp_XRD`.
    XRead,
}

impl ReplyCode {
    /// The code on the wire.
    pub open spec fn spec_byte(self) -> u8 {
        match self {
            ReplyCode::Ack => 0x40,
            ReplyCode::Nak => 0x41,
            ReplyCode::PdId => 0x45,
            ReplyCode::PdCap => 0x46,
            ReplyCode::LStatR => 0x48,
            ReplyCode::IStatR => 0x49,
            ReplyCode::OStatR => 0x4a,
            ReplyCode::RStatR => 0x4b,
            ReplyCode::RawRead => 0x50,
            ReplyCode::Fmt => 0x51,
            ReplyCode::Keypad => 0x53,
            ReplyCode::Com => 0x54,
            ReplyCode::BioReadR => 0x57,
            ReplyCode::BioMatchR => 0x58,
            ReplyCode::CCrypt => 0x76,
            ReplyCode::RMacI => 0x78,
            ReplyCode::Busy => 0x79,
            ReplyCode::FtStat => 0x7a,
            ReplyCode::PivDataR => 0x80,
            ReplyCode::GenAuthR => 0x81,
            ReplyCode::CrAuthR => 0x82,
            ReplyCode::MfgStatR => 0x83,
            ReplyCode::MfgErrR => 0x84,
            ReplyCode::MfgRep => 0x90,
            ReplyCode::XRead => 0xb1,
        }
    }

    /// The code that `b` stands for.
    pub open spec fn spec_from_byte(b: u8) -> Result<ReplyCode, Error> {
        if b == 0x40 {
            Ok(ReplyCode::Ack)
        } else if b == 0x41 {
            Ok(ReplyCode::Nak)
        } else if b == 0x45 {
            Ok(ReplyCode::PdId)
        } else if b == 0x46 {
            Ok(ReplyCode::PdCap)
        } else if b == 0x48 {
            Ok(ReplyCode::LStatR)
        } else if b == 0x49 {
            Ok(ReplyCode::IStatR)
        } else if b == 0x4a {
            Ok(ReplyCode::OStatR)
        } else if b == 0x4b {
            Ok(ReplyCode::RStatR)
        } else if b == 0x50 {
            Ok(ReplyCode::RawRead)
        } else if b == 0x51 {
            Ok(ReplyCode::Fmt)
        } else if b == 0x53 {
            Ok(ReplyCode::Keypad)
        } else if b == 0x54 {
            Ok(ReplyCode::Com)
        } else if b == 0x57 {
            Ok(ReplyCode::BioReadR)
        } else if b == 0x58 {
            Ok(ReplyCode::BioMatchR)
        } else if b == 0x76 {
            Ok(ReplyCode::CCrypt)
        } else if b == 0x78 {
            Ok(ReplyCode::RMacI)
        } else if b == 0x79 {
            Ok(ReplyCode::Busy)
        } else if b == 0x7a {
            Ok(ReplyCode::FtStat)
        } else if b == 0x80 {
            Ok(ReplyCode::PivDataR)
        } else if b == 0x81 {
            Ok(ReplyCode::GenAuthR)
        } else if b == 0x82 {
            Ok(ReplyCode::CrAuthR)
        } else if b == 0x83 {
            Ok(ReplyCode::MfgStatR)
        } else if b == 0x84 {
            Ok(ReplyCode::MfgErrR)
        } else if b == 0x90 {
            Ok(ReplyCode::MfgRep)
        } else if b == 0xb1 {
            Ok(ReplyCode::XRead)
        } else {
            Err(Error::UnknownReply(b))
        }
    }

    /// The code on the wire.
    pub fn as_byte(&self) -> (b: u8)
        ensures
            b == self.spec_byte(),
    {
        match self {
            ReplyCode::Ack => 0x40,
            ReplyCode::Nak => 0x41,
            ReplyCode::PdId => 0x45,
            ReplyCode::PdCap => 0x46,
            ReplyCode::LStatR => 0x48,
            ReplyCode::IStatR => 0x49,
            ReplyCode::OStatR => 0x4a,
            ReplyCode::RStatR => 0x4b,
            ReplyCode::RawRead => 0x50,
            ReplyCode::Fmt => 0x51,
            ReplyCode::Keypad => 0x53,
            ReplyCode::Com => 0x54,
            ReplyCode::BioReadR => 0x57,
            ReplyCode::BioMatchR => 0x58,
            ReplyCode::CCrypt => 0x76,
            ReplyCode::RMacI => 0x78,
            ReplyCode::Busy => 0x79,
            ReplyCode::FtStat => 0x7a,
            ReplyCode::PivDataR => 0x80,
            ReplyCode::GenAuthR => 0x81,
            ReplyCode::CrAuthR => 0x82,
            ReplyCode::MfgStatR => 0x83,
            ReplyCode::MfgErrR => 0x84,
            ReplyCode::MfgRep => 0x90,
            ReplyCode::XRead => 0xb1,
        }
    }

    /// Read a code.
    pub fn from_byte(b: u8) -> (r: Result<ReplyCode, Error>)
        ensures
            r == ReplyCode::spec_from_byte(b),
    {
        match b {
            0x40 => Ok(ReplyCode::Ack),
            0x41 => Ok(ReplyCode::Nak),
            0x45 => Ok(ReplyCode::PdId),
            0x46 => Ok(ReplyCode::PdCap),
            0x48 => Ok(ReplyCode::LStatR),
            0x49 => Ok(ReplyCode::IStatR),
            0x4a => Ok(ReplyCode::OStatR),
            0x4b => Ok(ReplyCode::RStatR),
            0x50 => Ok(ReplyCode::RawRead),
            0x51 => Ok(ReplyCode::Fmt),
            0x53 => Ok(ReplyCode::Keypad),
            0x54 => Ok(ReplyCode::Com),
            0x57 => Ok(ReplyCode::BioReadR),
            0x58 => Ok(ReplyCode::BioMatchR),
            0x76 => Ok(ReplyCode::CCrypt),
            0x78 => Ok(ReplyCode::RMacI),
            0x79 => Ok(ReplyCode::Busy),
            0x7a => Ok(ReplyCode::FtStat),
            0x80 => Ok(ReplyCode::PivDataR),
            0x81 => Ok(ReplyCode::GenAuthR),
            0x82 => Ok(ReplyCode::CrAuthR),
            0x83 => Ok(ReplyCode::MfgStatR),
            0x84 => Ok(ReplyCode::MfgErrR),
            0x90 => Ok(ReplyCode::MfgRep),
            0xb1 => Ok(ReplyCode::XRead),
            _ => Err(Error::UnknownReply(b)),
        }
    }
}

/// A code that was written is read back as it was, and a byte that is read as a code is
/// that code's byte.
pub proof fn law_reply_code_round_trip(c: ReplyCode, b: u8)
    ensures
        ReplyCode::spec_from_byte(c.spec_byte()) == Ok::<ReplyCode, Error>(c),
        ReplyCode::spec_from_byte(b) matches Ok(d) ==> d.spec_byte() == b,
{
}

/// `osdp_ACK`: command accepted, nothing to report.
#[derive(Debug, Clone, Copy, PartialEq, Eq)]
pub struct Ack;

/// `osdp_BUSY`: the PD cannot answer right now.
#[derive(Debug, Clone, Copy, PartialEq, Eq)]
pub struct Busy;

/// Reason of an `osdp_NAK`.
#[derive(Debug, Clone, Copy, PartialEq, Eq, Structural)]
pub enum NakErrorCode {
    /// Message check failed.
    MessageCheck,
    /// Command length error.
    CommandLength,
    /// Unknown command code.
    UnknownCommand,
    /// Unexpected sequence number.
    UnexpectedSequence,
    /// The security block type is not supported; also reports a refused server
    /// cryptogram.
    SecurityBlockTypeNotSupported,
    /// The command needs a secured conversation.
    EncryptionRequired,
    /// Biometric type not supported.
    BioTypeNotSupported,
    /// Biometric format not supported.
    BioFormatNotSupported,
    /// The command record cannot be processed.
    UnableToProcessCommandRecord,
    /// A reason without a name.
    Other(u8),
}

impl NakErrorCode {
    /// The reason on the wire.
    pub open spec fn spec_byte(self) -> u8 {
        match self {
            NakErrorCode::MessageCheck => 0x01,
            NakErrorCode::CommandLength => 0x02,
            NakErrorCode::UnknownCommand => 0x03,
            NakErrorCode::UnexpectedSequence => 0x04,
            NakErrorCode::SecurityBlockTypeNotSupported => 0x05,
            NakErrorCode::EncryptionRequired => 0x06,
            NakErrorCode::BioTypeNotSupported => 0x07,
            NakErrorCode::BioFormatNotSupported => 0x08,
            NakErrorCode::UnableToProcessCommandRecord => 0x09,
            NakErrorCode::Other(b) => b,
        }
    }

    /// The reason that `b` stands for.
    pub open spec fn spec_from_byte(b: u8) -> NakErrorCode {
        if b == 0x01 {
            NakErrorCode::MessageCheck
        } else if b == 0x02 {
            NakErrorCode::CommandLength
        } else if b == 0x03 {
            NakErrorCode::UnknownCommand
        } else if b == 0x04 {
            NakErrorCode::UnexpectedSequence
        } else if b == 0x05 {
            NakErrorCode::SecurityBlockTypeNotSupported
        } else if b == 0x06 {
            NakErrorCode::EncryptionRequired
        } else if b == 0x07 {
            NakErrorCode::BioTypeNotSupported
        } else if b == 0x08 {
            NakErrorCode::BioFormatNotSupported
        } else if b == 0x09 {
            NakErrorCode::UnableToProcessCommandRecord
        } else {
            NakErrorCode::Other(b)
        }
    }

    /// The reason on the wire.
    pub fn as_byte(&self) -> (b: u8)
        ensures
            b == self.spec_byte(),
    {
        match self {
            NakErrorCode::MessageCheck => 0x01,
            NakErrorCode::CommandLength => 0x02,
            NakErrorCode::UnknownCommand => 0x03,
            NakErrorCode::UnexpectedSequence => 0x04,
            NakErrorCode::SecurityBlockTypeNotSupported => 0x05,
            NakErrorCode::EncryptionRequired => 0x06,
            NakErrorCode::BioTypeNotSupported => 0x07,
            NakErrorCode::BioFormatNotSupported => 0x08,
            NakErrorCode::UnableToProcessCommandRecord => 0x09,
            NakErrorCode::Other(b) => *b,
        }
    }

    /// Read a reason.
    pub fn from_byte(b: u8) -> (c: NakErrorCode)
        ensures
            c == NakErrorCode::spec_from_byte(b),
    {
        match b {
            0x01 => NakErrorCode::MessageCheck,
            0x02 => NakErrorCode::CommandLength,
            0x03 => NakErrorCode::UnknownCommand,
            0x04 => NakErrorCode::UnexpectedSequence,
            0x05 => NakErrorCode::SecurityBlockTypeNotSupported,
            0x06 => NakErrorCode::EncryptionRequired,
            0x07 => NakErrorCode::BioTypeNotSupported,
            0x08 => NakErrorCode::BioFormatNotSupported,
            0x09 => NakErrorCode::UnableToProcessCommandRecord,
            _ => NakErrorCode::Other(b),
        }
    }
}

/// No reason byte is lost by reading it.
pub proof fn law_nak_reason_round_trip(b: u8)
    ensures
        NakErrorCode::spec_from_byte(b).spec_byte() == b,
{
}

/// `osdp_NAK`: command refused.
#[derive(Debug, Clone, PartialEq, Eq)]
pub struct Nak {
    /// Why.
    pub error: NakErrorCode,
    /// Details that some reasons carry.
    pub details: Vec<u8>,
}

/// What an `osdp_NAK` says.
#[verifier::ext_equal]
pub struct NakView {
    /// Why.
    pub error: NakErrorCode,
    /// Details that some reasons carry.
    pub details: Seq<u8>,
}

impl View for Nak {
    type V = NakView;

    open spec fn view(&self) -> NakView {
        NakView { error: self.error, details: self.details@ }
    }
}

/// Contents of `osdp_NAK` DATA.
pub open spec fn nak_decode(data: Seq<u8>) -> Result<NakView, Error> {
    if data.len() == 0 {
        Err(Error::MalformedPayload { code: 0x41, reason: "NAK DATA must start with a reason" })
    } else {
        Ok(NakView { error: NakErrorCode::spec_from_byte(data[0]), details: data.skip(1) })
    }
}

impl Nak {
    /// Refusal without details.
    pub fn simple(error: NakErrorCode) -> (n: Nak)
        ensures
            n@ == (NakView { error, details: Seq::empty() }),
    {
        Nak { error, details: Vec::new() }
    }

    /// DATA of the reply.
    pub fn encode(&self) -> (r: Result<Vec<u8>, Error>)
        ensures
            bytes::vec_result(r) == Ok::<Seq<u8>, Error>(
                seq![self.error.spec_byte()] + self.details@,
            ),
    {
        let mut v: Vec<u8> = Vec::new();
        v.push(self.error.as_byte());
        append(&mut v, self.details.as_slice());
        assert(v@ =~= seq![self.error.spec_byte()] + self.details@);
        Ok(v)
    }

    /// Read DATA.
    pub fn decode(data: &[u8]) -> (r: Result<Nak, Error>)
        ensures
            match r {
                Ok(n) => nak_decode(data@) == Ok::<NakView, Error>(n@),
                Err(e) => nak_decode(data@) == Err::<NakView, Error>(e),
            },
    {
        if data.len() == 0 {
            return Err(
                Error::MalformedPayload { code: 0x41, reason: "NAK DATA must start with a reason" },
            );
        }
        let details = slice_to_vec(range(data, 1, data.len()));
        assert(details@ =~= data@.skip(1));
        Ok(Nak { error: NakErrorCode::from_byte(data[0]), details })
    }
}

/// `osdp_PDID`: identification of the PD.
#[derive(Debug, Clone, Copy, PartialEq, Eq)]
pub struct PdId {
    /// Vendor code.
    pub vendor_oui: [u8; 3],
    /// Model number.
    pub model: u8,
    /// Hardware version.
    pub version: u8,
    /// Serial number.
    pub serial: u32,
    /// Firmware major, minor and build.
    pub firmware: [u8; 3],
}

/// What an `osdp_PDID` says.
#[verifier::ext_equal]
pub struct PdIdView {
    /// Vendor code.
    pub vendor_oui: Seq<u8>,
    /// Model number.
    pub model: u8,
    /// Hardware version.
    pub version: u8,
    /// Serial number.
    pub serial: u32,
    /// Firmware major, minor and build.
    pub firmware: Seq<u8>,
}

impl View for PdId {
    type V = PdIdView;

    open spec fn view(&self) -> PdIdView {
        PdIdView {
            vendor_oui: self.vendor_oui@,
            model: self.model,
            version: self.version,
            serial: self.serial,
            firmware: self.firmware@,
        }
    }
}

/// Bytes of a 32-bit number, low byte first.
pub open spec fn le32(n: u32) -> Seq<u8> {
    seq![
        (n % 0x100) as u8,
        (n / 0x100 % 0x100) as u8,
        (n / 0x1_0000 % 0x100) as u8,
        (n / 0x100_0000) as u8,
    ]
}

/// The 32-bit number with these bytes, low byte first.
pub open spec fn from_le32(s: Seq<u8>) -> u32 {
    (s[0] as int + 0x100 * s[1] + 0x1_0000 * s[2] + 0x100_0000 * s[3]) as u32
}

impl PdIdView {
    /// DATA of the reply.
    pub open spec fn data(self) -> Seq<u8> {
        self.vendor_oui + seq![self.model, self.version] + le32(self.serial) + self.firmware
    }
}

/// Contents of `osdp_PDID` DATA.
pub open spec fn pdid_decode(data: Seq<u8>) -> Result<PdIdView, Error> {
    if data.len() == 12 {
        Ok(
            PdIdView {
                vendor_oui: data.subrange(0, 3),
                model: data[3],
                version: data[4],
                serial: from_le32(data.subrange(5, 9)),
                firmware: data.subrange(9, 12),
            },
        )
    } else {
        Err(Error::MalformedPayload { code: 0x45, reason: "PDID DATA must be twelve bytes" })
    }
}

impl PdId {
    /// DATA of the reply.
    pub fn encode(&self) -> (r: Result<Vec<u8>, Error>)
        ensures
            bytes::vec_result(r) == Ok::<Seq<u8>, Error>(self@.data()),
    {
        let mut v: Vec<u8> = Vec::new();
        append(&mut v, self.vendor_oui.as_slice());
        v.push(self.model);
        v.push(self.version);
        v.push((self.serial % 0x100) as u8);
        v.push((self.serial / 0x100 % 0x100) as u8);
        v.push((self.serial / 0x1_0000 % 0x100) as u8);
        v.push((self.serial / 0x100_0000) as u8);
        append(&mut v, self.firmware.as_slice());
        assert(v@ =~= self@.data());
        Ok(v)
    }

    /// Read DATA.
    pub fn decode(data: &[u8]) -> (r: Result<PdId, Error>)
        ensures
            match r {
                Ok(p) => pdid_decode(data@) == Ok::<PdIdView, Error>(p@),
                Err(e) => pdid_decode(data@) == Err::<PdIdView, Error>(e),
            },
    {
        if data.len() != 12 {
            return Err(
                Error::MalformedPayload { code: 0x45, reason: "PDID DATA must be twelve bytes" },
            );
        }
        let serial: u32 = data[5] as u32 + 0x100 * (data[6] as u32) + 0x1_0000 * (data[7] as u32)
            + 0x100_0000 * (data[8] as u32);
        Ok(
            PdId {
                vendor_oui: array_at(data, 0),
                model: data[3],
                version: data[4],
                serial,
                firmware: array_at(data, 9),
            },
        )
    }
}

/// `osdp_CCRYPT`: identity, challenge and cryptogram of the PD.
#[derive(Debug, Clone, Copy, PartialEq, Eq)]
pub struct CCrypt {
    /// Client identifier of the PD.
    pub cuid: [u8; 8],
    /// Random challenge of the PD.
    pub rnd_b: [u8; 8],
    /// Client cryptogram.
    pub client_cryptogram: [u8; 16],
}

/// What an `osdp_CCRYPT` says.
#[verifier::ext_equal]
pub struct CCryptView {
    /// Client identifier of the PD.
    pub cuid: Seq<u8>,
    /// Random challenge of the PD.
    pub rnd_b: Seq<u8>,
    /// Client cryptogram.
    pub client_cryptogram: Seq<u8>,
}

impl View for CCrypt {
    type V = CCryptView;

    open spec fn view(&self) -> CCryptView {
        CCryptView {
            cuid: self.cuid@,
            rnd_b: self.rnd_b@,
            client_cryptogram: self.client_cryptogram@,
        }
    }
}

impl CCryptView {
    /// DATA of the reply.
    pub open spec fn data(self) -> Seq<u8> {
        self.cuid + self.rnd_b + self.client_cryptogram
    }

    /// The fields have their prescribed sizes.
    pub open spec fn well_formed(self) -> bool {
        self.cuid.len() == 8 && self.rnd_b.len() == 8 && self.client_cryptogram.len() == 16
    }
}

/// Contents of `osdp_CCRYPT` DATA.
pub open spec fn ccrypt_decode(data: Seq<u8>) -> Result<CCryptView, Error> {
    if data.len() == 32 {
        Ok(
            CCryptView {
                cuid: data.subrange(0, 8),
                rnd_b: data.subrange(8, 16),
                client_cryptogram: data.subrange(16, 32),
            },
        )
    } else {
        Err(Error::MalformedPayload { code: 0x76, reason: "CCRYPT DATA must be 32 bytes" })
    }
}

impl CCrypt {
    /// DATA of the reply.
    pub fn encode(&self) -> (r: Result<Vec<u8>, Error>)
        ensures
            bytes::vec_result(r) == Ok::<Seq<u8>, Error>(self@.data()),
    {
        let mut v: Vec<u8> = Vec::new();
        append(&mut v, self.cuid.as_slice());
        append(&mut v, self.rnd_b.as_slice());
        append(&mut v, self.client_cryptogram.as_slice());
        assert(v@ =~= self@.data());
        Ok(v)
    }

    /// Read DATA.
    pub fn decode(data: &[u8]) -> (r: Result<CCrypt, Error>)
        ensures
            match r {
                Ok(c) => ccrypt_decode(data@) == Ok::<CCryptView, Error>(c@),
                Err(e) => ccrypt_decode(data@) == Err::<CCryptView, Error>(e),
            },
    {
        if data.len() != 32 {
            return Err(
                Error::MalformedPayload { code: 0x76, reason: "CCRYPT DATA must be 32 bytes" },
            );
        }
        Ok(
            CCrypt {
                cuid: array_at(data, 0),
                rnd_b: array_at(data, 8),
                client_cryptogram: array_at(data, 16),
            },
        )
    }
}

/// `osdp_RMAC_I`: initial R-MAC of the session.
#[derive(Debug, Clone, Copy, PartialEq, Eq)]
pub struct RMacI {
    /// Initial R-MAC.
    pub r_mac_i: [u8; 16],
}

/// Contents of `osdp_RMAC_I` DATA: the initial R-MAC, and nothing else.
pub open spec fn rmaci_decode(data: Seq<u8>) -> Result<Seq<u8>, Error> {
    if data.len() == 16 {
        Ok(data)
    } else {
        Err(Error::MalformedPayload { code: 0x78, reason: "RMAC_I DATA must be sixteen bytes" })
    }
}

impl RMacI {
    /// DATA of the reply.
    pub fn encode(&self) -> (r: Result<Vec<u8>, Error>)
        ensures
            bytes::vec_result(r) == Ok::<Seq<u8>, Error>(self.r_mac_i@),
    {
        Ok(slice_to_vec(self.r_mac_i.as_slice()))
    }

    /// Read DATA.
    pub fn decode(data: &[u8]) -> (r: Result<RMacI, Error>)
        ensures
            match r {
                Ok(c) => rmaci_decode(data@) == Ok::<Seq<u8>, Error>(c.r_mac_i@),
                Err(e) => rmaci_decode(data@) == Err::<Seq<u8>, Error>(e),
            },
    {
        if data.len() != 16 {
            return Err(
                Error::MalformedPayload { code: 0x78, reason: "RMAC_I DATA must be sixteen bytes" },
            );
        }
        let r_mac_i: [u8; 16] = array_at(data, 0);
        assert(r_mac_i@ =~= data@);
        Ok(RMacI { r_mac_i })
    }
}

/// Reply whose DATA this crate hands through as bytes.
#[derive(Debug, Clone, PartialEq, Eq)]
pub struct RawReply {
    /// Reply code.
    pub code: ReplyCode,
    /// DATA.
    pub data: Vec<u8>,
}

/// A reply with its contents.
#[derive(Debug, Clone, PartialEq, Eq)]
pub enum Reply {
    /// `osdp_ACK`.
    Ack(Ack),
    /// `osdp_NAK`.
    Nak(Nak),
    /// `osdp_PDID`.
    PdId(PdId),
    /// `osdp_CCRYPT`.
    CCrypt(CCrypt),
    /// `osdp_RMAC_I`.
    RMacI(RMacI),
    /// `osdp_BUSY`.
    Busy(Busy),
    /// Any other reply.
    Raw(RawReply),
}

/// What a reply says.
#[verifier::ext_equal]
pub enum ReplyView {
    /// `osdp_ACK`.
    Ack,
    /// `osdp_NAK`.
    Nak(NakView),
    /// `osdp_PDID`.
    PdId(PdIdView),
    /// `osdp_CCRYPT`.
    CCrypt(CCryptView),
    /// `osdp_RMAC_I`.
    RMacI { r_mac_i: Seq<u8> },
    /// `osdp_BUSY`.
    Busy,
    /// Any other reply.
    Raw { code: ReplyCode, data: Seq<u8> },
}

impl View for Reply {
    type V = ReplyView;

    open spec fn view(&self) -> ReplyView {
        match *self {
            Reply::Ack(_) => ReplyView::Ack,
            Reply::Nak(n) => ReplyView::Nak(n@),
            Reply::PdId(p) => ReplyView::PdId(p@),
            Reply::CCrypt(c) => ReplyView::CCrypt(c@),
            Reply::RMacI(m) => ReplyView::RMacI { r_mac_i: m.r_mac_i@ },
            Reply::Busy(_) => ReplyView::Busy,
            Reply::Raw(r) => ReplyView::Raw { code: r.code, data: r.data@ },
        }
    }
}

impl ReplyView {
    /// Code of the reply.
    pub open spec fn code(self) -> ReplyCode {
        match self {
            ReplyView::Ack => ReplyCode::Ack,
            ReplyView::Nak(_) => ReplyCode::Nak,
            ReplyView::PdId(_) => ReplyCode::PdId,
            ReplyView::CCrypt(_) => ReplyCode::CCrypt,
            ReplyView::RMacI { .. } => ReplyCode::RMacI,
            ReplyView::Busy => ReplyCode::Busy,
            ReplyView::Raw { code, .. } => code,
        }
    }

    /// DATA of the reply.
    pub open spec fn data(self) -> Seq<u8> {
        match self {
            ReplyView::Ack => Seq::empty(),
            ReplyView::Nak(n) => seq![n.error.spec_byte()] + n.details,
            ReplyView::PdId(p) => p.data(),
            ReplyView::CCrypt(c) => c.data(),
            ReplyView::RMacI { r_mac_i } => r_mac_i,
            ReplyView::Busy => Seq::empty(),
            ReplyView::Raw { data, .. } => data,
        }
    }

    /// The contents have their prescribed sizes, a named refusal reason is given by its
    /// name, and a reply that has a form of its own is not written as a raw one.
    pub open spec fn well_formed(self) -> bool {
        match self {
            ReplyView::Nak(n) => NakErrorCode::spec_from_byte(n.error.spec_byte()) == n.error,
            ReplyView::PdId(p) => p.vendor_oui.len() == 3 && p.firmware.len() == 3,
            ReplyView::CCrypt(c) => c.well_formed(),
            ReplyView::RMacI { r_mac_i } => r_mac_i.len() == 16,
            ReplyView::Raw { code, .. } => !has_form(code),
            _ => true,
        }
    }
}

/// Whether replies of this code are taken apart.
pub open spec fn has_form(code: ReplyCode) -> bool {
    code is Ack || code is Nak || code is PdId || code is CCrypt || code is RMacI || code is Busy
}

/// What DATA of a reply with this code says.
pub open spec fn reply_decode(code: ReplyCode, data: Seq<u8>) -> Result<ReplyView, Error> {
    match code {
        ReplyCode::Ack => if data.len() == 0 {
            Ok(ReplyView::Ack)
        } else {
            Err(Error::MalformedPayload { code: 0x40, reason: "ACK carries no DATA" })
        },
        ReplyCode::Busy => if data.len() == 0 {
            Ok(ReplyView::Busy)
        } else {
            Err(Error::MalformedPayload { code: 0x79, reason: "BUSY carries no DATA" })
        },
        ReplyCode::Nak => match nak_decode(data) {
            Ok(n) => Ok(ReplyView::Nak(n)),
            Err(e) => Err(e),
        },
        ReplyCode::PdId => match pdid_decode(data) {
            Ok(p) => Ok(ReplyView::PdId(p)),
            Err(e) => Err(e),
        },
        ReplyCode::CCrypt => match ccrypt_decode(data) {
            Ok(c) => Ok(ReplyView::CCrypt(c)),
            Err(e) => Err(e),
        },
        ReplyCode::RMacI => match rmaci_decode(data) {
            Ok(r_mac_i) => Ok(ReplyView::RMacI { r_mac_i }),
            Err(e) => Err(e),
        },
        _ => Ok(ReplyView::Raw { code, data }),
    }
}

/// Outcome of [`Reply::decode`] in terms of contents.
pub open spec fn reply_result(r: Result<Reply, Error>) -> Result<ReplyView, Error> {
    match r {
        Ok(reply) => Ok(reply@),
        Err(e) => Err(e),
    }
}

impl Reply {
    /// Code of the reply.
    pub fn code(&self) -> (c: ReplyCode)
        ensures
            c == self@.code(),
    {
        match self {
            Reply::Ack(_) => ReplyCode::Ack,
            Reply::Nak(_) => ReplyCode::Nak,
            Reply::PdId(_) => ReplyCode::PdId,
            Reply::CCrypt(_) => ReplyCode::CCrypt,
            Reply::RMacI(_) => ReplyCode::RMacI,
            Reply::Busy(_) => ReplyCode::Busy,
            Reply::Raw(r) => r.code,
        }
    }

    /// DATA of the reply.
    pub fn encode_data(&self) -> (r: Result<Vec<u8>, Error>)
        ensures
            bytes::vec_result(r) == Ok::<Seq<u8>, Error>(self@.data()),
    {
        match self {
            Reply::Ack(_) => Ok(Vec::new()),
            Reply::Nak(n) => n.encode(),
            Reply::PdId(p) => p.encode(),
            Reply::CCrypt(c) => c.encode(),
            Reply::RMacI(m) => m.encode(),
            Reply::Busy(_) => Ok(Vec::new()),
            Reply::Raw(r) => Ok(slice_to_vec(r.data.as_slice())),
        }
    }

    /// Read DATA of a reply with this code.
    pub fn decode(code: ReplyCode, data: &[u8]) -> (r: Result<Reply, Error>)
        ensures
            reply_result(r) == reply_decode(code, data@),
    {
        match code {
            ReplyCode::Ack => {
                if data.len() != 0 {
                    return Err(
                        Error::MalformedPayload { code: 0x40, reason: "ACK carries no DATA" },
                    );
                }
                Ok(Reply::Ack(Ack))
            },
            ReplyCode::Busy => {
                if data.len() != 0 {
                    return Err(
                        Error::MalformedPayload { code: 0x79, reason: "BUSY carries no DATA" },
                    );
                }
                Ok(Reply::Busy(Busy))
            },
            ReplyCode::Nak => match Nak::decode(data) {
                Ok(n) => Ok(Reply::Nak(n)),
                Err(e) => Err(e),
            },
            ReplyCode::PdId => match PdId::decode(data) {
                Ok(p) => Ok(Reply::PdId(p)),
                Err(e) => Err(e),
            },
            ReplyCode::CCrypt => match CCrypt::decode(data) {
                Ok(c) => Ok(Reply::CCrypt(c)),
                Err(e) => Err(e),
            },
            ReplyCode::RMacI => match RMacI::decode(data) {
                Ok(m) => Ok(Reply::RMacI(m)),
                Err(e) => Err(e),
            },
            _ => Ok(Reply::Raw(RawReply { code, data: slice_to_vec(data) })),
        }
    }
}

/// A reply that was encoded is decoded to what it said.
pub proof fn law_reply_round_trip(r: ReplyView)
    requires
        r.well_formed(),
    ensures
        reply_decode(r.code(), r.data()) == Ok::<ReplyView, Error>(r),
{
    match r {
        ReplyView::Nak(n) => {
            assert((seq![n.error.spec_byte()] + n.details).skip(1) =~= n.details);
        },
        ReplyView::PdId(p) => {
            let d = p.data();
            assert(d.subrange(0, 3) =~= p.vendor_oui);
            assert(d.subrange(5, 9) =~= le32(p.serial));
            assert(d.subrange(9, 12) =~= p.firmware);
        },
        ReplyView::CCrypt(c) => {
            let d = c.data();
            assert(d.subrange(0, 8) =~= c.cuid);
            assert(d.subrange(8, 16) =~= c.rnd_b);
            assert(d.subrange(16, 32) =~= c.client_cryptogram);
        },
        _ => {},
    }
}

/// What replies look like on the wire. `osdp_ACK` and `osdp_BUSY` have no DATA; `osdp_NAK` has
/// its reason and any details; the others have their fields one after the other. Any other
/// reply has the DATA that it is given, whatever it is.
pub proof fn law_reply_bodies(r: ReplyView)
    ensures
        match r {
            ReplyView::Ack => r.code().spec_byte() == 0x40 && r.data().len() == 0,
            ReplyView::Nak(n) => {
                &&& r.code().spec_byte() == 0x41
                &&& r.data() == seq![n.error.spec_byte()] + n.details
            },
            ReplyView::PdId(p) => {
                &&& r.code().spec_byte() == 0x45
                &&& r.data() == p.vendor_oui + seq![p.model, p.version] + le32(p.serial) + p.firmware
            },
            ReplyView::CCrypt(c) => {
                &&& r.code().spec_byte() == 0x76
                &&& r.data() == c.cuid + c.rnd_b + c.client_cryptogram
            },
            ReplyView::RMacI { r_mac_i } => r.code().spec_byte() == 0x78 && r.data() == r_mac_i,
            ReplyView::Busy => r.code().spec_byte() == 0x79 && r.data().len() == 0,
            ReplyView::Raw { code, data } => r.code() == code && r.data() == data,
        },
{
}

/// Which DATA makes a reply. Of the codes that have a form, exactly DATA of that form does,
/// and says what stands in it; of every other code, all DATA does, and is handed through.
pub proof fn law_reply_is_read(code: ReplyCode, data: Seq<u8>)
    ensures
        match (code, reply_decode(code, data)) {
            (ReplyCode::Ack, Ok(r)) => data.len() == 0 && r is Ack,
            (ReplyCode::Ack, Err(_)) => data.len() != 0,
            (ReplyCode::Busy, Ok(r)) => data.len() == 0 && r is Busy,
            (ReplyCode::Busy, Err(_)) => data.len() != 0,
            (ReplyCode::Nak, Ok(r)) => {
                &&& data.len() > 0
                &&& r matches ReplyView::Nak(n)
                &&& n.error.spec_byte() == data[0]
                &&& n.details == data.skip(1)
                &&& n.error is SecurityBlockTypeNotSupported <==> data[0] == 5
            },
            (ReplyCode::Nak, Err(_)) => data.len() == 0,
            (ReplyCode::PdId, Ok(r)) => {
                &&& data.len() == 12
                &&& r matches ReplyView::PdId(p)
                &&& p.vendor_oui == data.subrange(0, 3)
                &&& p.model == data[3]
                &&& p.version == data[4]
                &&& p.serial == data[5] + 0x100 * data[6] + 0x1_0000 * data[7] + 0x100_0000
                    * data[8]
                &&& p.firmware == data.subrange(9, 12)
            },
            (ReplyCode::PdId, Err(_)) => data.len() != 12,
            (ReplyCode::CCrypt, Ok(r)) => {
                &&& data.len() == 32
                &&& r matches ReplyView::CCrypt(c)
                &&& c.cuid == data.subrange(0, 8)
                &&& c.rnd_b == data.subrange(8, 16)
                &&& c.client_cryptogram == data.subrange(16, 32)
            },
            (ReplyCode::CCrypt, Err(_)) => data.len() != 32,
            (ReplyCode::RMacI, Ok(r)) => data.len() == 16 && r == (ReplyView::RMacI {
                r_mac_i: data,
            }),
            (ReplyCode::RMacI, Err(_)) => data.len() != 16,
            (_, r) => r == Ok::<ReplyView, Error>(ReplyView::Raw { code, data }),
        },
        reply_decode(code, data) matches Err(e) ==> e is MalformedPayload && e->MalformedPayload_code
            == code.spec_byte(),
{
    if data.len() > 0 {
        law_nak_reason_round_trip(data[0]);
    }
}

/// The bytes that are reply codes, and no others are.
pub proof fn law_reply_codes(b: u8)
    ensures
        ReplyCode::spec_from_byte(b) is Ok <==> (0x40 <= b <= 0x41 || 0x45 <= b <= 0x46 || 0x48 <= b <= 0x4b || 0x50 <= b <= 0x51 || 0x53 <= b <= 0x54 || 0x57 <= b <= 0x58 || b == 0x76 || 0x78 <= b <= 0x7a || 0x80 <= b <= 0x84 || b == 0x90 || b == 0xb1),
        ReplyCode::spec_from_byte(b) matches Err(e) ==> e == Error::UnknownReply(b),
        ReplyCode::Ack.spec_byte() == 0x40,
        ReplyCode::Nak.spec_byte() == 0x41,
        ReplyCode::PdId.spec_byte() == 0x45,
        ReplyCode::PdCap.spec_byte() == 0x46,
        ReplyCode::LStatR.spec_byte() == 0x48,
        ReplyCode::IStatR.spec_byte() == 0x49,
        ReplyCode::OStatR.spec_byte() == 0x4a,
        ReplyCode::RStatR.spec_byte() == 0x4b,
        ReplyCode::RawRead.spec_byte() == 0x50,
        ReplyCode::Fmt.spec_byte() == 0x51,
        ReplyCode::Keypad.spec_byte() == 0x53,
        ReplyCode::Com.spec_byte() == 0x54,
        ReplyCode::BioReadR.spec_byte() == 0x57,
        ReplyCode::BioMatchR.spec_byte() == 0x58,
        ReplyCode::CCrypt.spec_byte() == 0x76,
        ReplyCode::RMacI.spec_byte() == 0x78,
        ReplyCode::Busy.spec_byte() == 0x79,
        ReplyCode::FtStat.spec_byte() == 0x7a,
        ReplyCode::PivDataR.spec_byte() == 0x80,
        ReplyCode::GenAuthR.spec_byte() == 0x81,
        ReplyCode::CrAuthR.spec_byte() == 0x82,
        ReplyCode::MfgStatR.spec_byte() == 0x83,
        ReplyCode::MfgErrR.spec_byte() == 0x84,
        ReplyCode::MfgRep.spec_byte() == 0x90,
        ReplyCode::XRead.spec_byte() == 0xb1,
{
}

} // verus!
