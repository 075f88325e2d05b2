//! What the PD decides from plain values: what it makes of a command, and the replies it
//! sends.

use vstd::prelude::*;
use vstd::slice::slice_to_vec;

use crate::bytes;
use crate::command;
use crate::command::{Chlng, CommandCode, SCrypt};
use crate::driver::pd::state;
use crate::driver::pd::state::{
    is_secure_session_established, PdSecureConfig, PdSecureKey, PdSecureState, PdSecureView,
};
use crate::error::{Error, SecureSessionError};
use crate::packet::codec;
use crate::packet::codec::{PacketBuilder, PacketView, ParsedPacket};
use crate::packet::control;
use crate::packet::control::{Address, ControlByte, CtrlFlags, Sqn};
use crate::packet::scb;
use crate::packet::scb::{Scb, ScbView, ScsType, SCS14_STATUS_SUCCESS};
use crate::reply::{Reply, ReplyView};
use crate::secure::frame;
use crate::secure::frame::{seal, unseal, Direction};
use crate::secure::session;
use crate::secure::session::{PdChallengedView, Session};

verus! {

/// A command taken off the bus.
#[derive(Debug)]
pub struct ParsedCommand {
    /// Command code.
    pub code: CommandCode,
    /// Sequence number.
    pub sqn: Sqn,
    /// Security block, if there is one.
    pub scb: Option<Scb>,
    /// DATA, as it stands on the wire.
    pub data: Vec<u8>,
    /// The whole frame.
    pub raw: Vec<u8>,
}

/// Contents of a [`ParsedCommand`].
#[verifier::ext_equal]
pub struct CommandFrame {
    /// Command code.
    pub code: CommandCode,
    /// Sequence number.
    pub sqn: Sqn,
    /// Security block, if there is one.
    pub scb: Option<ScbView>,
    /// DATA, as it stands on the wire.
    pub data: Seq<u8>,
    /// The whole frame.
    pub raw: Seq<u8>,
}

impl View for ParsedCommand {
    type V = CommandFrame;

    open spec fn view(&self) -> CommandFrame {
        CommandFrame {
            code: self.code,
            sqn: self.sqn,
            scb: scb::scb_view(self.scb),
            data: self.data@,
            raw: self.raw@,
        }
    }
}

impl CommandFrame {
    /// The fields are those of the frame, which is a single one.
    pub open spec fn well_formed(self) -> bool {
        match codec::parse_frame(self.raw) {
            Ok((p, used)) => {
                &&& used == self.raw.len()
                &&& CommandCode::spec_from_byte(p.code) == Ok::<CommandCode, Error>(self.code)
                &&& p.ctrl.sqn == self.sqn
                &&& p.scb == self.scb
                &&& p.data == self.data
            },
            Err(_) => false,
        }
    }

    /// The frame opens a handshake.
    pub open spec fn is_challenge(self) -> bool {
        self.code is Chlng && self.scb is Some && self.scb->0.ty is Scs11
    }

    /// The frame continues a handshake.
    pub open spec fn is_proof(self) -> bool {
        self.code is SCrypt && self.scb is Some && self.scb->0.ty is Scs13
    }

    /// The frame is marked as secured by the ACU.
    pub open spec fn is_secured(self) -> bool {
        self.scb is Some && (self.scb->0.ty is Scs15 || self.scb->0.ty is Scs17)
    }
}

/// Key and random challenge with which the PD answers a challenge.
#[derive(Debug, Clone, Copy)]
pub struct ChallengeMaterial {
    /// Key that the ACU selected.
    pub selection: PdSecureKey,
    /// Its value.
    pub scbk: [u8; 16],
    /// Random challenge of the PD.
    pub rnd_b: [u8; 8],
}

/// Frame of a reply outside a secure session.
pub open spec fn plain_reply(address: u8, use_crc: bool, sqn: Sqn, reply: ReplyView) -> Result<
    Seq<u8>,
    Error,
> {
    match control::reply_address(address) {
        Err(e) => Err(e),
        Ok(addr) => codec::encode_frame(
            PacketView {
                addr,
                ctrl: ControlByte { sqn, flags: CtrlFlags { use_crc, has_scb: false } },
                scb: None,
                code: reply.code().spec_byte(),
                data: reply.data(),
                mac: None,
            },
        ),
    }
}

/// Frame of a handshake reply.
pub open spec fn handshake_reply(
    address: u8,
    use_crc: bool,
    sqn: Sqn,
    scb: ScbView,
    reply: ReplyView,
) -> Result<Seq<u8>, Error> {
    match control::reply_address(address) {
        Err(e) => Err(e),
        Ok(addr) => codec::encode_frame(
            PacketView {
                addr,
                ctrl: ControlByte { sqn, flags: CtrlFlags { use_crc, has_scb: true } },
                scb: Some(scb),
                code: reply.code().spec_byte(),
                data: reply.data(),
                mac: None,
            },
        ),
    }
}

/// Frame of a reply, with the secure state that it leaves behind: secured once the
/// handshake has completed. A reply that cannot be secured ends the session.
pub open spec fn secure_reply(
    address: u8,
    use_crc: bool,
    secure: Option<PdSecureView>,
    sqn: Sqn,
    reply: ReplyView,
) -> (Result<Seq<u8>, Error>, Option<PdSecureView>) {
    match secure {
        Some(PdSecureView::Secure(s)) => match control::reply_address(address) {
            Err(e) => (Err(e), None),
            Ok(addr) => match frame::seal_frame(
                s,
                addr,
                sqn,
                Direction::PdToAcu,
                reply.data().len() > 0,
                reply.code().spec_byte(),
                reply.data(),
            ) {
                Err(e) => (Err(e), None),
                Ok((t, raw)) => (Ok(raw), Some(PdSecureView::Secure(t))),
            },
        },
        _ => (plain_reply(address, use_crc, sqn, reply), secure),
    }
}

/// Build the frame of a reply outside a secure session.
pub fn encode_reply(address: u8, use_crc: bool, sqn: Sqn, reply: &Reply) -> (r: Result<
    Vec<u8>,
    Error,
>)
    ensures
        bytes::vec_result(r) == plain_reply(address, use_crc, sqn, reply@),
{
    let addr = Address::reply(address)?;
    let ctrl = ControlByte::new(sqn, CtrlFlags { use_crc, has_scb: false });
    let data = reply.encode_data()?;
    PacketBuilder::plain(addr, ctrl, reply.code().as_byte(), data).encode()
}

/// Build the frame of a handshake reply.
pub fn encode_reply_with_scb(address: u8, use_crc: bool, sqn: Sqn, scb: Scb, reply: &Reply) -> (r:
    Result<Vec<u8>, Error>)
    ensures
        bytes::vec_result(r) == handshake_reply(address, use_crc, sqn, scb@, reply@),
{
    let addr = Address::reply(address)?;
    let ctrl = ControlByte::new(sqn, CtrlFlags { use_crc, has_scb: true });
    let data = reply.encode_data()?;
    let builder = PacketBuilder { addr, ctrl, scb: Some(scb), code: reply.code().as_byte(), data };
    builder.encode()
}

/// Build the frame of a reply. In a secure session, an ACU in step with the session opens
/// it to the reply's DATA, and is then in step with the session again.
pub fn encode_reply_secure_if_established(
    address: u8,
    use_crc: bool,
    secure_state: &mut Option<PdSecureState>,
    sqn: Sqn,
    reply: &Reply,
) -> (r: Result<Vec<u8>, Error>)
    ensures
        (bytes::vec_result(r), state::secure_view(*final(secure_state))) == secure_reply(
            address,
            use_crc,
            state::secure_view(*old(secure_state)),
            sqn,
            reply@,
        ),
        r is Ok ==> (state::secure_view(*old(secure_state)) matches Some(PdSecureView::Secure(s))
            ==> {
            &&& state::secure_view(*final(secure_state)) matches Some(PdSecureView::Secure(t))
            &&& frame::opens_to(s, r->Ok_0@, t, reply@.data())
        }),
{
    let mut session = match secure_state.take() {
        Some(PdSecureState::Secure(session)) => session,
        other => {
            *secure_state = other;
            return encode_reply(address, use_crc, sqn, reply);
        },
    };
    let data = reply.encode_data()?;
    let addr = Address::reply(address)?;
    let bytes = seal(
        &mut session,
        addr,
        sqn,
        Direction::PdToAcu,
        data.len() > 0,
        reply.code().as_byte(),
        data.as_slice(),
    )?;
    *secure_state = Some(PdSecureState::Secure(session));
    Ok(bytes)
}

/// Whether a frame is a challenge that the PD takes up, and the key that it asks for. A PD
/// without a secure-channel identity takes up none.
pub open spec fn challenge_asks(config: Option<Seq<u8>>, f: CommandFrame) -> Result<
    Option<PdSecureKey>,
    Error,
> {
    if config is Some && f.is_challenge() {
        match state::key_selected(f.scb->0.data) {
            Ok(key) => Ok(Some(key)),
            Err(e) => Err(e),
        }
    } else {
        Ok(None)
    }
}

/// Contents of an optional secure-channel identity.
pub open spec fn config_view(config: Option<PdSecureConfig>) -> Option<Seq<u8>> {
    match config {
        Some(c) => Some(c.cuid@),
        None => None,
    }
}

/// Tell whether a frame is a challenge that the PD takes up, and the key that it asks for.
pub fn requested_key(config: Option<PdSecureConfig>, cmd: &ParsedCommand) -> (r: Result<
    Option<PdSecureKey>,
    Error,
>)
    ensures
        r == challenge_asks(config_view(config), cmd@),
{
    if config.is_none() {
        return Ok(None);
    }
    match (&cmd.scb, cmd.code) {
        (Some(scb), CommandCode::Chlng) => match scb.ty {
            ScsType::Scs11 => match PdSecureKey::from_scb_data(scb.data.as_slice()) {
                Ok(key) => Ok(Some(key)),
                Err(e) => Err(e),
            },
            _ => Ok(None),
        },
        _ => Ok(None),
    }
}

/// Answer to SCS_11, with the secure state that it leaves behind. An earlier handshake or
/// session is forgotten.
pub open spec fn answer_challenge(
    address: u8,
    use_crc: bool,
    cuid: Seq<u8>,
    secure: Option<PdSecureView>,
    f: CommandFrame,
    key: PdSecureKey,
    scbk: Seq<u8>,
    rnd_b: Seq<u8>,
) -> (Result<Seq<u8>, Error>, Option<PdSecureView>) {
    match command::chlng_decode(f.data) {
        Err(e) => (Err(e), secure),
        Ok(rnd_a) => {
            let session = PdChallengedView { scbk, rnd_a, rnd_b, cuid };
            (
                handshake_reply(
                    address,
                    use_crc,
                    f.sqn,
                    ScbView { ty: ScsType::Scs12, data: key.scb_data() },
                    ReplyView::CCrypt(session::ccrypt_of(session)),
                ),
                Some(PdSecureView::Challenged { session, key }),
            )
        },
    }
}

/// Answer to SCS_13, with the secure state that it leaves behind; `None` where no challenge
/// has been taken up. A wrong key selector or a wrong cryptogram ends the handshake.
pub open spec fn answer_proof(
    address: u8,
    use_crc: bool,
    secure: Option<PdSecureView>,
    f: CommandFrame,
) -> (Result<Option<Seq<u8>>, Error>, Option<PdSecureView>) {
    match state::key_selected(f.scb->0.data) {
        Err(e) => (Err(e), secure),
        Ok(selection) => match command::scrypt_decode(f.data) {
            Err(e) => (Err(e), secure),
            Ok(cryptogram) => match secure {
                Some(PdSecureView::Challenged { session, key }) => if key != selection {
                    (
                        Err(Error::SecureSession(SecureSessionError::BadCryptogram)),
                        Some(PdSecureView::Disconnected(session.scbk)),
                    )
                } else {
                    match session::accept_scrypt(session, cryptogram) {
                        Err(e) => (
                            Err(Error::SecureSession(e)),
                            Some(PdSecureView::Disconnected(session.scbk)),
                        ),
                        Ok((s, r_mac_i)) => (
                            match handshake_reply(
                                address,
                                use_crc,
                                f.sqn,
                                ScbView { ty: ScsType::Scs14, data: SCS14_STATUS_SUCCESS@ },
                                ReplyView::RMacI { r_mac_i },
                            ) {
                                Ok(bytes) => Ok(Some(bytes)),
                                Err(e) => Err(e),
                            },
                            Some(PdSecureView::Secure(s)),
                        ),
                    }
                },
                _ => (Ok(None), secure),
            },
        },
    }
}

/// Key and random challenge in terms of contents.
pub open spec fn material_view(m: ChallengeMaterial) -> (PdSecureKey, Seq<u8>, Seq<u8>) {
    (m.selection, m.scbk@, m.rnd_b@)
}

/// Key and random challenge are there exactly where the frame is a challenge that is taken
/// up, and the key is the one that it asks for.
pub open spec fn material_fits(
    config: Option<Seq<u8>>,
    f: CommandFrame,
    material: Option<(PdSecureKey, Seq<u8>, Seq<u8>)>,
) -> bool {
    match challenge_asks(config, f) {
        Ok(Some(key)) => material is Some && (material->0).0 == key,
        _ => material is None,
    }
}

/// Optional key and random challenge in terms of contents.
pub open spec fn materials_view(material: Option<ChallengeMaterial>) -> Option<
    (PdSecureKey, Seq<u8>, Seq<u8>),
> {
    match material {
        Some(m) => Some(material_view(m)),
        None => None,
    }
}

/// Answer to a handshake frame, with the secure state that it leaves behind; `None` where
/// the frame is no part of a handshake. A challenge that selects no key is refused.
/// `material` is there exactly where a challenge is taken up.
pub open spec fn handshake(
    address: u8,
    use_crc: bool,
    config: Option<Seq<u8>>,
    secure: Option<PdSecureView>,
    f: CommandFrame,
    material: Option<(PdSecureKey, Seq<u8>, Seq<u8>)>,
) -> (Result<Option<Seq<u8>>, Error>, Option<PdSecureView>) {
    match (config, material) {
        (Some(_), None) if challenge_asks(config, f) is Err => (
            Err(challenge_asks(config, f)->Err_0),
            secure,
        ),
        (Some(cuid), Some((key, scbk, rnd_b))) => {
            let (reply, after) = answer_challenge(
                address,
                use_crc,
                cuid,
                secure,
                f,
                key,
                scbk,
                rnd_b,
            );
            (
                match reply {
                    Ok(bytes) => Ok(Some(bytes)),
                    Err(e) => Err(e),
                },
                after,
            )
        },
        (Some(_), None) => if f.is_proof() {
            answer_proof(address, use_crc, secure, f)
        } else {
            (Ok(None), secure)
        },
        _ => (Ok(None), secure),
    }
}

/// Outcome of a handshake step in terms of contents.
pub open spec fn answer_view(r: Result<Option<Vec<u8>>, Error>) -> Result<Option<Seq<u8>>, Error> {
    match r {
        Ok(Some(v)) => Ok(Some(v@)),
        Ok(None) => Ok(None),
        Err(e) => Err(e),
    }
}

/// Answer SCS_13.
fn handle_proof(
    address: u8,
    use_crc: bool,
    secure_state: &mut Option<PdSecureState>,
    cmd: &ParsedCommand,
) -> (r: Result<Option<Vec<u8>>, Error>)
    requires
        cmd@.is_proof(),
    ensures
        (answer_view(r), state::secure_view(*final(secure_state))) == answer_proof(
            address,
            use_crc,
            state::secure_view(*old(secure_state)),
            cmd@,
        ),
{
    let selector = match &cmd.scb {
        Some(scb) => scb.data.as_slice(),
        None => cmd.data.as_slice(),
    };
    let selection = PdSecureKey::from_scb_data(selector)?;
    let scrypt = SCrypt::decode(cmd.data.as_slice())?;
    let (session, key) = match secure_state.take() {
        Some(PdSecureState::Challenged { session, key }) => (session, key),
        other => {
            *secure_state = other;
            return Ok(None);
        },
    };
    if key != selection {
        *secure_state = Some(PdSecureState::Disconnected(session.reset()));
        return Err(Error::SecureSession(SecureSessionError::BadCryptogram));
    }
    match session.receive_scrypt(&scrypt) {
        Ok((secure, rmac_i)) => {
            *secure_state = Some(PdSecureState::Secure(secure));
            let bytes = encode_reply_with_scb(
                address,
                use_crc,
                cmd.sqn,
                Scb::new(ScsType::Scs14, SCS14_STATUS_SUCCESS),
                &Reply::RMacI(rmac_i),
            )?;
            Ok(Some(bytes))
        },
        Err((session, err)) => {
            *secure_state = Some(PdSecureState::Disconnected(session));
            Err(Error::from(err))
        },
    }
}

/// Answer a handshake frame. `material` is there exactly where a challenge is taken up.
pub fn handle_secure_handshake(
    address: u8,
    use_crc: bool,
    config: Option<PdSecureConfig>,
    secure_state: &mut Option<PdSecureState>,
    cmd: &ParsedCommand,
    material: Option<ChallengeMaterial>,
) -> (r: Result<Option<Vec<u8>>, Error>)
    requires
        material_fits(config_view(config), cmd@, materials_view(material)),
    ensures
        (answer_view(r), state::secure_view(*final(secure_state))) == handshake(
            address,
            use_crc,
            config_view(config),
            state::secure_view(*old(secure_state)),
            cmd@,
            materials_view(material),
        ),
{
    if let Err(e) = requested_key(config, cmd) {
        return Err(e);
    }
    let config = match config {
        Some(config) => config,
        None => {
            return Ok(None);
        },
    };
    if let Some(material) = material {
        let chlng = Chlng::decode(cmd.data.as_slice())?;
        let challenged = Session::new(material.scbk).receive_challenge(
            chlng.rnd_a,
            config.cuid,
            material.rnd_b,
        );
        let ccrypt = challenged.ccrypt();
        *secure_state = Some(
            PdSecureState::Challenged { session: challenged, key: material.selection },
        );
        let bytes = encode_reply_with_scb(
            address,
            use_crc,
            cmd.sqn,
            Scb::new(ScsType::Scs12, material.selection.as_scb_data()),
            &Reply::CCrypt(ccrypt),
        )?;
        return Ok(Some(bytes));
    }
    match (&cmd.scb, cmd.code) {
        (Some(scb), CommandCode::SCrypt) => match scb.ty {
            ScsType::Scs13 => handle_proof(address, use_crc, secure_state, cmd),
            _ => Ok(None),
        },
        _ => Ok(None),
    }
}

/// The DATA of a secured command in the clear, with the secure state that it leaves behind.
/// A frame that does not open ends the session.
pub open spec fn unseal_command(secure: Option<PdSecureView>, f: CommandFrame) -> (
    Result<Seq<u8>, Error>,
    Option<PdSecureView>,
) {
    match secure {
        Some(PdSecureView::Secure(s)) => match codec::parse_frame(f.raw) {
            Err(e) => (Err(e), None),
            Ok((p, _)) => match frame::unseal_frame(s, p, f.raw) {
                Err(e) => (Err(e), Some(PdSecureView::Disconnected(s.scbk))),
                Ok((t, data)) => (Ok(data), Some(PdSecureView::Secure(t))),
            },
        },
        _ => (Err(Error::SecureSession(SecureSessionError::NotSecure)), secure),
    }
}

/// The DATA of a command in the clear, with the secure state that it leaves behind. In a
/// secure session only a command secured by the ACU counts.
pub open spec fn open_command(secure: Option<PdSecureView>, f: CommandFrame) -> (
    Result<Seq<u8>, Error>,
    Option<PdSecureView>,
) {
    match secure {
        Some(PdSecureView::Secure(_)) => if f.is_secured() {
            unseal_command(secure, f)
        } else {
            (Err(Error::SecureSession(SecureSessionError::NotSecure)), secure)
        },
        _ => (Ok(f.data), secure),
    }
}

/// Open a secured command. The MAC is checked before DATA is looked at, and a frame that
/// does not open leaves the session disconnected.
pub fn unseal_secure_command(secure_state: &mut Option<PdSecureState>, cmd: &ParsedCommand) -> (r:
    Result<Vec<u8>, Error>)
    requires
        cmd@.well_formed(),
    ensures
        (bytes::vec_result(r), state::secure_view(*final(secure_state))) == unseal_command(
            state::secure_view(*old(secure_state)),
            cmd@,
        ),
{
    let session = match secure_state.take() {
        Some(PdSecureState::Secure(session)) => session,
        other => {
            *secure_state = other;
            return Err(Error::SecureSession(SecureSessionError::NotSecure));
        },
    };
    let (parsed, _) = ParsedPacket::parse(cmd.raw.as_slice())?;
    match unseal(session, &parsed, cmd.raw.as_slice()) {
        Ok((session, plaintext)) => {
            *secure_state = Some(PdSecureState::Secure(session));
            Ok(plaintext)
        },
        Err(err) => {
            *secure_state = Some(PdSecureState::Disconnected(err.session));
            Err(err.error)
        },
    }
}

/// Get the DATA of a command in the clear. Once the handshake has completed, anything that
/// the ACU did not secure is unauthenticated traffic and is refused.
pub fn command_data(secure_state: &mut Option<PdSecureState>, cmd: &ParsedCommand) -> (r: Result<
    Vec<u8>,
    Error,
>)
    requires
        cmd@.well_formed(),
    ensures
        (bytes::vec_result(r), state::secure_view(*final(secure_state))) == open_command(
            state::secure_view(*old(secure_state)),
            cmd@,
        ),
{
    if !is_secure_session_established(secure_state) {
        return Ok(slice_to_vec(cmd.data.as_slice()));
    }
    match &cmd.scb {
        Some(scb) => match scb.ty {
            ScsType::Scs15 | ScsType::Scs17 => unseal_secure_command(secure_state, cmd),
            _ => Err(Error::SecureSession(SecureSessionError::NotSecure)),
        },
        None => Err(Error::SecureSession(SecureSessionError::NotSecure)),
    }
}

} // verus!
