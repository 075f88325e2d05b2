//! Commands that an ACU sends.

use vstd::prelude::*;
use vstd::slice::slice_to_vec;

use crate::bytes;
use crate::bytes::{append, array_at, range};
use crate::error::Error;

verus! {

/// Command codes.
#[derive(Debug, Clone, Copy, PartialEq, Eq, Structural)]
pub enum CommandCode {
    /// `osdp_POLL`.
    Poll,
    /// `osdp_ID`.
    Id,
    /// `osdp_CAP`.
    Cap,
    /// `osdp_LSTAT`.
    LStat,
    /// `osdp_ISTAT`.
    IStat,
    /// `osdp_OSTAT`.
    OStat,
    /// `osdp_RSTAT`.
    RStat,
    /// `osdp_OUT`.
    Out,
    /// `osdp_LED`.
    Led,
    /// `osdp_BUZ`.
    Buz,
    /// `osdp_TEXT`.
    Text,
    /// `osdp_COMSET`.
    ComSet,
    /// `osdp_BIOREAD`.
    BioRead,
    /// `osdp_BIOMATCH`.
    BioMatch,
    /// `osdp_KEYSET`.
    KeySet,
    /// `osdp_CHLNG`.
    Chlng,
    /// `osdp_SCRYPT`.
    SCrypt,
    /// `osdp_ACURXSIZE`.
    AcuRxSize,
    /// `osdp_FILETRANSFER`.
    FileTransfer,
    /// `osdp_MFG`.
    Mfg,
    /// `osdp_XWR`.
    XWrite,
    /// `osdp_ABORT`.
    Abort,
    /// `osdp_PIVDATA`.
    PivData,
    /// `osdp_GENAUTH`.
    GenAuth,
    /// `osdp_CRAUTH`.
    CrAuth,
    /// `osdp_KEEPACTIVE`.
    KeepActive,
}

impl CommandCode {
    /// The code on the wire.
    pub open spec fn spec_byte(self) -> u8 {
        match self {
            CommandCode::Poll => 0x60,
            CommandCode::Id => 0x61,
            CommandCode::Cap => 0x62,
            CommandCode::LStat => 0x64,
            CommandCode::IStat => 0x65,
            CommandCode::OStat => 0x66,
            CommandCode::RStat => 0x67,
            CommandCode::Out => 0x68,
            CommandCode::Led => 0x69,
            CommandCode::Buz => 0x6a,
            CommandCode::Text => 0x6b,
            CommandCode::ComSet => 0x6e,
            CommandCode::BioRead => 0x73,
            CommandCode::BioMatch => 0x74,
            CommandCode::KeySet => 0x75,
            CommandCode::Chlng => 0x76,
            CommandCode::SCrypt => 0x77,
            CommandCode::AcuRxSize => 0x7b,
            CommandCode::FileTransfer => 0x7c,
            CommandCode::Mfg => 0x80,
            CommandCode::XWrite => 0xa1,
            CommandCode::Abort => 0xa2,
            CommandCode::PivData => 0xa3,
            CommandCode::GenAuth => 0xa4,
            CommandCode::CrAuth => 0xa5,
            CommandCode::KeepActive => 0xa7,
        }
    }

    /// The code that `b` stands for.
    pub open spec fn spec_from_byte(b: u8) -> Result<CommandCode, Error> {
        if b == 0x60 {
            Ok(CommandCode::Poll)
        } else if b == 0x61 {
            Ok(CommandCode::Id)
        } else if b == 0x62 {
            Ok(CommandCode::Cap)
        } else if b == 0x64 {
            Ok(CommandCode::LStat)
        } else if b == 0x65 {
            Ok(CommandCode::IStat)
        } else if b == 0x66 {
            Ok(CommandCode::OStat)
        } else if b == 0x67 {
            Ok(CommandCode::RStat)
        } else if b == 0x68 {
            Ok(CommandCode::Out)
        } else if b == 0x69 {
            Ok(CommandCode::Led)
        } else if b == 0x6a {
            Ok(CommandCode::Buz)
        } else if b == 0x6b {
            Ok(CommandCode::Text)
        } else if b == 0x6e {
            Ok(CommandCode::ComSet)
        } else if b == 0x73 {
            Ok(CommandCode::BioRead)
        } else if b == 0x74 {
            Ok(CommandCode::BioMatch)
        } else if b == 0x75 {
            Ok(CommandCode::KeySet)
        } else if b == 0x76 {
            Ok(CommandCode::Chlng)
        } else if b == 0x77 {
            Ok(CommandCode::SCrypt)
        } else if b == 0x7b {
            Ok(CommandCode::AcuRxSize)
        } else if b == 0x7c {
            Ok(CommandCode::FileTransfer)
        } else if b == 0x80 {
            Ok(CommandCode::Mfg)
        } else if b == 0xa1 {
            Ok(CommandCode::XWrite)
        } else if b == 0xa2 {
            Ok(CommandCode::Abort)
        } else if b == 0xa3 {
            Ok(CommandCode::PivData)
        } else if b == 0xa4 {
            Ok(CommandCode::GenAuth)
        } else if b == 0xa5 {
            Ok(CommandCode::CrAuth)
        } else if b == 0xa7 {
            Ok(CommandCode::KeepActive)
        } else {
            Err(Error::UnknownCommand(b))
        }
    }

    /// The code on the wire.
    pub fn as_byte(&self) -> (b: u8)
        ensures
            b == self.spec_byte(),
    {
        match self {
            CommandCode::Poll => 0x60,
            CommandCode::Id => 0x61,
            CommandCode::Cap => 0x62,
            CommandCode::LStat => 0x64,
            CommandCode::IStat => 0x65,
            CommandCode::OStat => 0x66,
            CommandCode::RStat => 0x67,
            CommandCode::Out => 0x68,
            CommandCode::Led => 0x69,
            CommandCode::Buz => 0x6a,
            CommandCode::Text => 0x6b,
            CommandCode::ComSet => 0x6e,
            CommandCode::BioRead => 0x73,
            CommandCode::BioMatch => 0x74,
            CommandCode::KeySet => 0x75,
            CommandCode::Chlng => 0x76,
            CommandCode::SCrypt => 0x77,
            CommandCode::AcuRxSize => 0x7b,
            CommandCode::FileTransfer => 0x7c,
            CommandCode::Mfg => 0x80,
            CommandCode::XWrite => 0xa1,
            CommandCode::Abort => 0xa2,
            CommandCode::PivData => 0xa3,
            CommandCode::GenAuth => 0xa4,
            CommandCode::CrAuth => 0xa5,
            CommandCode::KeepActive => 0xa7,
        }
    }

    /// Read a code.
    pub fn from_byte(b: u8) -> (r: Result<CommandCode, Error>)
        ensures
            r == CommandCode::spec_from_byte(b),
    {
        match b {
            0x60 => Ok(CommandCode::Poll),
            0x61 => Ok(CommandCode::Id),
            0x62 => Ok(CommandCode::Cap),
            0x64 => Ok(CommandCode::LStat),
            0x65 => Ok(CommandCode::IStat),
            0x66 => Ok(CommandCode::OStat),
            0x67 => Ok(CommandCode::RStat),
            0x68 => Ok(CommandCode::Out),
            0x69 => Ok(CommandCode::Led),
            0x6a => Ok(CommandCode::Buz),
            0x6b => Ok(CommandCode::Text),
            0x6e => Ok(CommandCode::ComSet),
            0x73 => Ok(CommandCode::BioRead),
            0x74 => Ok(CommandCode::BioMatch),
            0x75 => Ok(CommandCode::KeySet),
            0x76 => Ok(CommandCode::Chlng),
            0x77 => Ok(CommandCode::SCrypt),
            0x7b => Ok(CommandCode::AcuRxSize),
            0x7c => Ok(CommandCode::FileTransfer),
            0x80 => Ok(CommandCode::Mfg),
            0xa1 => Ok(CommandCode::XWrite),
            0xa2 => Ok(CommandCode::Abort),
            0xa3 => Ok(CommandCode::PivData),
            0xa4 => Ok(CommandCode::GenAuth),
            0xa5 => Ok(CommandCode::CrAuth),
            0xa7 => Ok(CommandCode::KeepActive),
            _ => Err(Error::UnknownCommand(b)),
        }
    }
}

/// A code that was written is read back as it was, and a byte that is read as a code is
/// that code's byte.
pub proof fn law_command_code_round_trip(c: CommandCode, b: u8)
    ensures
        CommandCode::spec_from_byte(c.spec_byte()) == Ok::<CommandCode, Error>(c),
        CommandCode::spec_from_byte(b) matches Ok(d) ==> d.spec_byte() == b,
{
}

/// `osdp_POLL`: ask for pending events.
#[derive(Debug, Clone, Copy, PartialEq, Eq)]
pub struct Poll;

/// `osdp_ID`: ask for the PD identification.
#[derive(Debug, Clone, Copy, PartialEq, Eq)]
pub struct Id {
    /// Kind of identification asked for, `0` for the standard block.
    pub reserved: u8,
}

impl Id {
    /// Ask for the standard identification block.
    pub fn standard() -> (c: Id)
        ensures
            c.reserved == 0,
    {
        Id { reserved: 0 }
    }

    /// DATA of the command.
    pub fn encode(&self) -> (r: Result<Vec<u8>, Error>)
        ensures
            bytes::vec_result(r) == Ok::<Seq<u8>, Error>(seq![self.reserved]),
    {
        let mut v: Vec<u8> = Vec::new();
        v.push(self.reserved);
        assert(v@ =~= seq![self.reserved]);
        Ok(v)
    }
}

/// `osdp_CHLNG`: open the secure-channel handshake.
#[derive(Debug, Clone, Copy, PartialEq, Eq)]
pub struct Chlng {
    /// Random challenge of the ACU.
    pub rnd_a: [u8; 8],
}

/// Contents of `osdp_CHLNG` DATA: the challenge, and nothing else.
pub open spec fn chlng_decode(data: Seq<u8>) -> Result<Seq<u8>, Error> {
    if data.len() == 8 {
        Ok(data)
    } else {
        Err(
            Error::MalformedPayload {
                code: 0x76,
                reason: "CHLNG DATA must be the eight bytes of RND.A",
            },
        )
    }
}

impl Chlng {
    /// Challenge with `rnd_a`.
    pub fn new(rnd_a: [u8; 8]) -> (c: Chlng)
        ensures
            c.rnd_a == rnd_a,
    {
        Chlng { rnd_a }
    }

    /// Read DATA.
    pub fn decode(data: &[u8]) -> (r: Result<Chlng, Error>)
        ensures
            match r {
                Ok(c) => chlng_decode(data@) == Ok::<Seq<u8>, Error>(c.rnd_a@),
                Err(e) => chlng_decode(data@) == Err::<Seq<u8>, Error>(e),
            },
    {
        if data.len() != 8 {
            return Err(
                Error::MalformedPayload {
                    code: 0x76,
                    reason: "CHLNG DATA must be the eight bytes of RND.A",
                },
            );
        }
        let rnd_a: [u8; 8] = array_at(data, 0);
        assert(rnd_a@ =~= data@);
        Ok(Chlng { rnd_a })
    }
}

/// `osdp_SCRYPT`: prove knowledge of the key to the PD.
#[derive(Debug, Clone, Copy, PartialEq, Eq)]
pub struct SCrypt {
    /// Server cryptogram.
    pub server_cryptogram: [u8; 16],
}

/// Contents of `osdp_SCRYPT` DATA: the server cryptogram, and nothing else.
pub open spec fn scrypt_decode(data: Seq<u8>) -> Result<Seq<u8>, Error> {
    if data.len() == 16 {
        Ok(data)
    } else {
        Err(
            Error::MalformedPayload {
                code: 0x77,
                reason: "SCRYPT DATA must be the sixteen bytes of the server cryptogram",
            },
        )
    }
}

impl SCrypt {
    /// Proof by `server_cryptogram`.
    pub fn new(server_cryptogram: [u8; 16]) -> (c: SCrypt)
        ensures
            c.server_cryptogram == server_cryptogram,
    {
        SCrypt { server_cryptogram }
    }

    /// Read DATA.
    pub fn decode(data: &[u8]) -> (r: Result<SCrypt, Error>)
        ensures
            match r {
                Ok(c) => scrypt_decode(data@) == Ok::<Seq<u8>, Error>(c.server_cryptogram@),
                Err(e) => scrypt_decode(data@) == Err::<Seq<u8>, Error>(e),
            },
    {
        if data.len() != 16 {
            return Err(
                Error::MalformedPayload {
                    code: 0x77,
                    reason: "SCRYPT DATA must be the sixteen bytes of the server cryptogram",
                },
            );
        }
        let server_cryptogram: [u8; 16] = array_at(data, 0);
        assert(server_cryptogram@ =~= data@);
        Ok(SCrypt { server_cryptogram })
    }
}

/// `osdp_KEYSET`: install a key.
#[derive(Debug, Clone, PartialEq, Eq)]
pub struct KeySet {
    /// Which key is installed, `1` for the SCBK.
    pub key_type: u8,
    /// The key.
    pub key: Vec<u8>,
}

impl KeySet {
    /// Install `scbk` as the current SCBK.
    pub fn scbk(scbk: [u8; 16]) -> (c: KeySet)
        ensures
            c.key_type == 1,
            c.key@ == scbk@,
    {
        KeySet { key_type: 1, key: slice_to_vec(scbk.as_slice()) }
    }
}

/// Command whose DATA this crate hands through as bytes.
#[derive(Debug, Clone, PartialEq, Eq)]
pub struct RawCommand {
    /// Command code.
    pub code: CommandCode,
    /// DATA.
    pub data: Vec<u8>,
}

/// A command with its contents.
#[derive(Debug, Clone, PartialEq, Eq)]
pub enum Command {
    /// `osdp_POLL`.
    Poll(Poll),
    /// `osdp_ID`.
    Id(Id),
    /// `osdp_CHLNG`.
    Chlng(Chlng),
    /// `osdp_SCRYPT`.
    SCrypt(SCrypt),
    /// `osdp_KEYSET`.
    KeySet(KeySet),
    /// Any other command.
    Raw(RawCommand),
}

/// What a command says.
#[verifier::ext_equal]
pub enum CommandView {
    /// `osdp_POLL`.
    Poll,
    /// `osdp_ID`.
    Id { reserved: u8 },
    /// `osdp_CHLNG`.
    Chlng { rnd_a: Seq<u8> },
    /// `osdp_SCRYPT`.
    SCrypt { server_cryptogram: Seq<u8> },
    /// `osdp_KEYSET`.
    KeySet { key_type: u8, key: Seq<u8> },
    /// Any other command.
    Raw { code: CommandCode, data: Seq<u8> },
}

impl View for Command {
    type V = CommandView;

    open spec fn view(&self) -> CommandView {
        match *self {
            Command::Poll(_) => CommandView::Poll,
            Command::Id(c) => CommandView::Id { reserved: c.reserved },
            Command::Chlng(c) => CommandView::Chlng { rnd_a: c.rnd_a@ },
            Command::SCrypt(c) => CommandView::SCrypt { server_cryptogram: c.server_cryptogram@ },
            Command::KeySet(c) => CommandView::KeySet { key_type: c.key_type, key: c.key@ },
            Command::Raw(c) => CommandView::Raw { code: c.code, data: c.data@ },
        }
    }
}

impl CommandView {
    /// Code of the command.
    pub open spec fn code(self) -> CommandCode {
        match self {
            CommandView::Poll => CommandCode::Poll,
            CommandView::Id { .. } => CommandCode::Id,
            CommandView::Chlng { .. } => CommandCode::Chlng,
            CommandView::SCrypt { .. } => CommandCode::SCrypt,
            CommandView::KeySet { .. } => CommandCode::KeySet,
            CommandView::Raw { code, .. } => code,
        }
    }

    /// DATA of the command. Only a key too long for its length byte has none.
    pub open spec fn data(self) -> Result<Seq<u8>, Error> {
        match self {
            CommandView::Poll => Ok(Seq::empty()),
            CommandView::Id { reserved } => Ok(seq![reserved]),
            CommandView::Chlng { rnd_a } => Ok(rnd_a),
            CommandView::SCrypt { server_cryptogram } => Ok(server_cryptogram),
            CommandView::KeySet { key_type, key } => if key.len() > 255 {
                Err(Error::PayloadTooLarge { len: key.len() as usize })
            } else {
                Ok(seq![key_type, key.len() as u8] + key)
            },
            CommandView::Raw { data, .. } => Ok(data),
        }
    }

    /// The contents have their prescribed sizes, and a command that has a form of its
    /// own is not written as a raw one.
    pub open spec fn well_formed(self) -> bool {
        match self {
            CommandView::Chlng { rnd_a } => rnd_a.len() == 8,
            CommandView::SCrypt { server_cryptogram } => server_cryptogram.len() == 16,
            CommandView::KeySet { key, .. } => key.len() <= 255,
            CommandView::Raw { code, .. } => !has_form(code),
            _ => true,
        }
    }
}

/// Whether commands of this code are taken apart.
pub open spec fn has_form(code: CommandCode) -> bool {
    code is Poll || code is Id || code is Chlng || code is SCrypt || code is KeySet
}

/// What DATA of a command with this code says.
pub open spec fn command_decode(code: CommandCode, data: Seq<u8>) -> Result<CommandView, Error> {
    match code {
        CommandCode::Poll => if data.len() == 0 {
            Ok(CommandView::Poll)
        } else {
            Err(Error::MalformedPayload { code: 0x60, reason: "POLL carries no DATA" })
        },
        CommandCode::Id => if data.len() == 1 {
            Ok(CommandView::Id { reserved: data[0] })
        } else {
            Err(Error::MalformedPayload { code: 0x61, reason: "ID DATA must be one byte" })
        },
        CommandCode::Chlng => match chlng_decode(data) {
            Ok(rnd_a) => Ok(CommandView::Chlng { rnd_a }),
            Err(e) => Err(e),
        },
        CommandCode::SCrypt => match scrypt_decode(data) {
            Ok(server_cryptogram) => Ok(CommandView::SCrypt { server_cryptogram }),
            Err(e) => Err(e),
        },
        CommandCode::KeySet => if data.len() >= 2 && data[1] == data.len() - 2 {
            Ok(CommandView::KeySet { key_type: data[0], key: data.skip(2) })
        } else {
            Err(
                Error::MalformedPayload {
                    code: 0x75,
                    reason: "KEYSET DATA must be type, length and key",
                },
            )
        },
        _ => Ok(CommandView::Raw { code, data }),
    }
}

impl Command {
    /// Code of the command.
    pub fn code(&self) -> (c: CommandCode)
        ensures
            c == self@.code(),
    {
        match self {
            Command::Poll(_) => CommandCode::Poll,
            Command::Id(_) => CommandCode::Id,
            Command::Chlng(_) => CommandCode::Chlng,
            Command::SCrypt(_) => CommandCode::SCrypt,
            Command::KeySet(_) => CommandCode::KeySet,
            Command::Raw(c) => c.code,
        }
    }

    /// DATA of the command.
    pub fn encode_data(&self) -> (r: Result<Vec<u8>, Error>)
        ensures
            bytes::vec_result(r) == self@.data(),
    {
        match self {
            Command::Poll(_) => Ok(Vec::new()),
            Command::Id(c) => c.encode(),
            Command::Chlng(c) => Ok(slice_to_vec(c.rnd_a.as_slice())),
            Command::SCrypt(c) => Ok(slice_to_vec(c.server_cryptogram.as_slice())),
            Command::KeySet(c) => {
                if c.key.len() > 255 {
                    return Err(Error::PayloadTooLarge { len: c.key.len() });
                }
                let mut v: Vec<u8> = Vec::new();
                v.push(c.key_type);
                v.push(c.key.len() as u8);
                append(&mut v, c.key.as_slice());
                assert(v@ =~= seq![c.key_type, c.key@.len() as u8] + c.key@);
                Ok(v)
            },
            Command::Raw(c) => Ok(slice_to_vec(c.data.as_slice())),
        }
    }

    /// Read DATA of a command with this code.
    pub fn decode(code: CommandCode, data: &[u8]) -> (r: Result<Command, Error>)
        ensures
            match r {
                Ok(c) => command_decode(code, data@) == Ok::<CommandView, Error>(c@),
                Err(e) => command_decode(code, data@) == Err::<CommandView, Error>(e),
            },
    {
        match code {
            CommandCode::Poll => {
                if data.len() != 0 {
                    return Err(
                        Error::MalformedPayload { code: 0x60, reason: "POLL carries no DATA" },
                    );
                }
                Ok(Command::Poll(Poll))
            },
            CommandCode::Id => {
                if data.len() != 1 {
                    return Err(
                        Error::MalformedPayload { code: 0x61, reason: "ID DATA must be one byte" },
                    );
                }
                Ok(Command::Id(Id { reserved: data[0] }))
            },
            CommandCode::Chlng => match Chlng::decode(data) {
                Ok(c) => Ok(Command::Chlng(c)),
                Err(e) => Err(e),
            },
            CommandCode::SCrypt => match SCrypt::decode(data) {
                Ok(c) => Ok(Command::SCrypt(c)),
                Err(e) => Err(e),
            },
            CommandCode::KeySet => {
                if data.len() < 2 || data[1] as usize != data.len() - 2 {
                    return Err(
                        Error::MalformedPayload {
                            code: 0x75,
                            reason: "KEYSET DATA must be type, length and key",
                        },
                    );
                }
                let key = slice_to_vec(range(data, 2, data.len()));
                assert(key@ =~= data@.skip(2));
                Ok(Command::KeySet(KeySet { key_type: data[0], key }))
            },
            _ => Ok(Command::Raw(RawCommand { code, data: slice_to_vec(data) })),
        }
    }
}

/// A command that was encoded is decoded to what it said.
pub proof fn law_command_round_trip(c: CommandView)
    requires
        c.well_formed(),
    ensures
        c.data() is Ok,
        command_decode(c.code(), c.data()->Ok_0) == Ok::<CommandView, Error>(c),
{
    if let CommandView::KeySet { key_type, key } = c {
        assert((seq![key_type, key.len() as u8] + key).skip(2) =~= key);
    }
}

/// What commands look like on the wire. `osdp_POLL` has no DATA; `osdp_ID` has one byte,
/// `osdp_CHLNG` and `osdp_SCRYPT` their challenge and cryptogram, and `osdp_KEYSET` the type,
/// the length and the key, of up to 255 bytes. Any other command has the DATA that it is
/// given, whatever it is.
pub proof fn law_command_bodies(c: CommandView)
    ensures
        match c {
            CommandView::Poll => {
                &&& c.code().spec_byte() == 0x60
                &&& c.data() == Ok::<Seq<u8>, Error>(Seq::empty())
            },
            CommandView::Id { reserved } => {
                &&& c.code().spec_byte() == 0x61
                &&& c.data() == Ok::<Seq<u8>, Error>(seq![reserved])
            },
            CommandView::KeySet { key_type, key } => {
                &&& c.code().spec_byte() == 0x75
                &&& key.len() <= 255 ==> c.data() == Ok::<Seq<u8>, Error>(
                    seq![key_type, key.len() as u8] + key,
                )
                &&& key.len() > 255 ==> c.data() == Err::<Seq<u8>, Error>(
                    Error::PayloadTooLarge { len: key.len() as usize },
                )
            },
            CommandView::Chlng { rnd_a } => {
                &&& c.code().spec_byte() == 0x76
                &&& c.data() == Ok::<Seq<u8>, Error>(rnd_a)
            },
            CommandView::SCrypt { server_cryptogram } => {
                &&& c.code().spec_byte() == 0x77
                &&& c.data() == Ok::<Seq<u8>, Error>(server_cryptogram)
            },
            CommandView::Raw { code, data } => {
                &&& c.code() == code
                &&& c.data() == Ok::<Seq<u8>, Error>(data)
            },
        },
{
}

/// Which DATA makes a command. Of the codes that have a form, exactly DATA of that form does,
/// and says what stands in it; of every other code, all DATA does, and is handed through.
pub proof fn law_command_is_read(code: CommandCode, data: Seq<u8>)
    ensures
        match (code, command_decode(code, data)) {
            (CommandCode::Poll, Ok(c)) => data.len() == 0 && c is Poll,
            (CommandCode::Poll, Err(_)) => data.len() != 0,
            (CommandCode::Id, Ok(c)) => data.len() == 1 && c == (CommandView::Id {
                reserved: data[0],
            }),
            (CommandCode::Id, Err(_)) => data.len() != 1,
            (CommandCode::Chlng, Ok(c)) => data.len() == 8 && c == (CommandView::Chlng {
                rnd_a: data,
            }),
            (CommandCode::Chlng, Err(_)) => data.len() != 8,
            (CommandCode::SCrypt, Ok(c)) => data.len() == 16 && c == (CommandView::SCrypt {
                server_cryptogram: data,
            }),
            (CommandCode::SCrypt, Err(_)) => data.len() != 16,
            (CommandCode::KeySet, Ok(c)) => {
                &&& data.len() >= 2
                &&& data[1] == data.len() - 2
                &&& c == (CommandView::KeySet { key_type: data[0], key: data.skip(2) })
            },
            (CommandCode::KeySet, Err(_)) => data.len() < 2 || data[1] != data.len() - 2,
            (_, r) => r == Ok::<CommandView, Error>(CommandView::Raw { code, data }),
        },
        command_decode(code, data) matches Err(e) ==> e is MalformedPayload && e->MalformedPayload_code
            == code.spec_byte(),
{
}

/// The bytes that are command codes, and no others are.
pub proof fn law_command_codes(b: u8)
    ensures
        CommandCode::spec_from_byte(b) is Ok <==> (0x60 <= b <= 0x62 || 0x64 <= b <= 0x6b || b
            == 0x6e || 0x73 <= b <= 0x77 || b == 0x7b || b == 0x7c || b == 0x80 || 0xa1 <= b
            <= 0xa5 || b == 0xa7),
        CommandCode::spec_from_byte(b) matches Err(e) ==> e == Error::UnknownCommand(b),
        CommandCode::Poll.spec_byte() == 0x60,
        CommandCode::Id.spec_byte() == 0x61,
        CommandCode::Cap.spec_byte() == 0x62,
        CommandCode::LStat.spec_byte() == 0x64,
        CommandCode::IStat.spec_byte() == 0x65,
        CommandCode::OStat.spec_byte() == 0x66,
        CommandCode::RStat.spec_byte() == 0x67,
        CommandCode::Out.spec_byte() == 0x68,
        CommandCode::Led.spec_byte() == 0x69,
        CommandCode::Buz.spec_byte() == 0x6a,
        CommandCode::Text.spec_byte() == 0x6b,
        CommandCode::ComSet.spec_byte() == 0x6e,
        CommandCode::BioRead.spec_byte() == 0x73,
        CommandCode::BioMatch.spec_byte() == 0x74,
        CommandCode::KeySet.spec_byte() == 0x75,
        CommandCode::Chlng.spec_byte() == 0x76,
        CommandCode::SCrypt.spec_byte() == 0x77,
        CommandCode::AcuRxSize.spec_byte() == 0x7b,
        CommandCode::FileTransfer.spec_byte() == 0x7c,
        CommandCode::Mfg.spec_byte() == 0x80,
        CommandCode::XWrite.spec_byte() == 0xa1,
        CommandCode::Abort.spec_byte() == 0xa2,
        CommandCode::PivData.spec_byte() == 0xa3,
        CommandCode::GenAuth.spec_byte() == 0xa4,
        CommandCode::CrAuth.spec_byte() == 0xa5,
        CommandCode::KeepActive.spec_byte() == 0xa7,
{
}

} // verus!
