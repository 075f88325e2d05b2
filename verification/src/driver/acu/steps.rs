//! What the ACU decides from plain values: the frames it sends, and what it makes of the
//! replies that come in.

use vstd::prelude::*;
use vstd::slice::slice_to_vec;

use crate::bytes;
use crate::bytes::bytes_equal;
use crate::command::{Command, CommandView};
use crate::driver::acu::state::{AcuSecureKey, AcuSecureState, AcuSecureView, PdState, PdStateView};
use crate::error::{Error, SecureSessionError};
use crate::packet::codec;
use crate::packet::codec::{PacketBuilder, PacketView, ParsedPacket};
use crate::packet::control;
use crate::packet::control::{Address, ControlByte, CtrlFlags, Sqn};
use crate::packet::scb;
use crate::packet::scb::{
    Scb, ScbView, ScsType, SCS14_STATUS_FAILURE, SCS14_STATUS_SUCCESS,
};
use crate::reply;
use crate::reply::{CCrypt, Nak, NakErrorCode, RMacI, ReplyCode};
use crate::secure::frame;
use crate::secure::frame::{seal, unseal, Direction};
use crate::secure::session;

verus! {

/// What a PD says in SCS_14 about the server cryptogram.
#[derive(Debug, Clone, Copy, PartialEq, Eq, Structural)]
pub enum Scs14Status {
    /// It was accepted.
    Success,
    /// It was rejected.
    Failure,
}

/// A reply taken off the bus.
#[derive(Debug, Clone)]
pub struct ParsedReply {
    /// Reply code.
    pub code: ReplyCode,
    /// Sequence number.
    pub sqn: Sqn,
    /// Security block, if there is one.
    pub scb: Option<Scb>,
    /// DATA, as it stands on the wire.
    pub data: Vec<u8>,
    /// The whole frame.
    pub raw: Vec<u8>,
}

/// Contents of a [`ParsedReply`].
#[verifier::ext_equal]
pub struct ReplyFrame {
    /// Reply code.
    pub code: ReplyCode,
    /// Sequence number.
    pub sqn: Sqn,
    /// Security block, if there is one.
    pub scb: Option<ScbView>,
    /// DATA, as it stands on the wire.
    pub data: Seq<u8>,
    /// The whole frame.
    pub raw: Seq<u8>,
}

impl View for ParsedReply {
    type V = ReplyFrame;

    open spec fn view(&self) -> ReplyFrame {
        ReplyFrame {
            code: self.code,
            sqn: self.sqn,
            scb: scb::scb_view(self.scb),
            data: self.data@,
            raw: self.raw@,
        }
    }
}

impl ReplyFrame {
    /// The fields are those of the frame, which is a single one.
    pub open spec fn well_formed(self) -> bool {
        match codec::parse_frame(self.raw) {
            Ok((p, used)) => {
                &&& used == self.raw.len()
                &&& ReplyCode::spec_from_byte(p.code) == Ok::<ReplyCode, Error>(self.code)
                &&& p.ctrl.sqn == self.sqn
                &&& p.scb == self.scb
                &&& p.data == self.data
            },
            Err(_) => false,
        }
    }
}

/// Frame of a command outside a secure session.
pub open spec fn plain_request(addr: u8, use_crc: bool, sqn: Sqn, cmd: CommandView) -> Result<
    Seq<u8>,
    Error,
> {
    match control::command_address(addr) {
        Err(e) => Err(e),
        Ok(addr) => match cmd.data() {
            Err(e) => Err(e),
            Ok(data) => codec::encode_frame(
                PacketView {
                    addr,
                    ctrl: ControlByte { sqn, flags: CtrlFlags { use_crc, has_scb: false } },
                    scb: None,
                    code: cmd.code().spec_byte(),
                    data,
                    mac: None,
                },
            ),
        },
    }
}

/// Frame of a handshake command.
pub open spec fn handshake_request(
    addr: u8,
    use_crc: bool,
    sqn: Sqn,
    scs: ScsType,
    key: AcuSecureKey,
    cmd: CommandView,
) -> Result<Seq<u8>, Error> {
    match control::command_address(addr) {
        Err(e) => Err(e),
        Ok(addr) => match cmd.data() {
            Err(e) => Err(e),
            Ok(data) => codec::encode_frame(
                PacketView {
                    addr,
                    ctrl: ControlByte { sqn, flags: CtrlFlags { use_crc, has_scb: true } },
                    scb: Some(ScbView { ty: scs, data: key.scb_data() }),
                    code: cmd.code().spec_byte(),
                    data,
                    mac: None,
                },
            ),
        },
    }
}

/// Frame of a command inside the secure session, with the bookkeeping that it leaves
/// behind. A command that has no DATA to send, or no address to go to, ends the session.
pub open spec fn secure_request(addr: u8, pd: PdStateView, sqn: Sqn, cmd: CommandView) -> (
    Result<Seq<u8>, Error>,
    PdStateView,
) {
    match pd.session() {
        None => (Err(Error::SecureSession(SecureSessionError::NotSecure)), pd),
        Some(s) => match cmd.data() {
            Err(e) => (Err(e), pd.with_secure(None)),
            Ok(data) => match control::command_address(addr) {
                Err(e) => (Err(e), pd.with_secure(None)),
                Ok(a) => match frame::seal_frame(
                    s,
                    a,
                    sqn,
                    Direction::AcuToPd,
                    data.len() > 0,
                    cmd.code().spec_byte(),
                    data,
                ) {
                    Err(e) => (Err(e), pd),
                    Ok((t, raw)) => (Ok(raw), pd.with_secure(Some(AcuSecureView::Secure(t)))),
                },
            },
        },
    }
}

/// Frame of a command: secured once the handshake has completed.
pub open spec fn request(addr: u8, pd: PdStateView, sqn: Sqn, cmd: CommandView) -> (
    Result<Seq<u8>, Error>,
    PdStateView,
) {
    if pd.is_secure() {
        secure_request(addr, pd, sqn, cmd)
    } else {
        (plain_request(addr, pd.use_crc, sqn, cmd), pd)
    }
}

/// Build the frame of a command outside a secure session.
pub fn plain_request_frame(addr: u8, use_crc: bool, sqn: Sqn, command: &Command) -> (r: Result<
    Vec<u8>,
    Error,
>)
    ensures
        bytes::vec_result(r) == plain_request(addr, use_crc, sqn, command@),
{
    let addr = Address::pd(addr)?;
    let data = command.encode_data()?;
    let ctrl = ControlByte::new(sqn, CtrlFlags { use_crc, has_scb: false });
    PacketBuilder::plain(addr, ctrl, command.code().as_byte(), data).encode()
}

/// Build the frame of a handshake command.
pub fn handshake_request_frame(
    addr: u8,
    use_crc: bool,
    sqn: Sqn,
    scs: ScsType,
    key: AcuSecureKey,
    command: &Command,
) -> (r: Result<Vec<u8>, Error>)
    ensures
        bytes::vec_result(r) == handshake_request(addr, use_crc, sqn, scs, key, command@),
{
    let addr = Address::pd(addr)?;
    let data = command.encode_data()?;
    let builder = PacketBuilder {
        addr,
        ctrl: ControlByte::new(sqn, CtrlFlags { use_crc, has_scb: true }),
        scb: Some(Scb::new(scs, key.as_scb_data())),
        code: command.code().as_byte(),
        data,
    };
    builder.encode()
}

/// Build the frame of a command inside the secure session. A PD whose session is where
/// this one was opens it to the command's DATA, and its session is then where this one
/// is.
pub fn secure_request_frame(addr: u8, pd: &mut PdState, sqn: Sqn, command: &Command) -> (r: Result<
    Vec<u8>,
    Error,
>)
    ensures
        (bytes::vec_result(r), final(pd)@) == secure_request(addr, old(pd)@, sqn, command@),
        r is Ok ==> frame::opens_to(
            old(pd)@.session()->0,
            r->Ok_0@,
            final(pd)@.session()->0,
            command@.data()->Ok_0,
        ),
{
    let mut session = match pd.secure_state.take() {
        Some(AcuSecureState::Secure(session)) => session,
        other => {
            pd.secure_state = other;
            return Err(Error::SecureSession(SecureSessionError::NotSecure));
        },
    };
    let data = command.encode_data()?;
    let addr = Address::pd(addr)?;
    let sealed = seal(
        &mut session,
        addr,
        sqn,
        Direction::AcuToPd,
        data.len() > 0,
        command.code().as_byte(),
        data.as_slice(),
    );
    pd.secure_state = Some(AcuSecureState::Secure(session));
    sealed
}

/// The PD has to echo the sequence number that was sent. `osdp_BUSY` is the exception:
/// its number is always zero.
pub open spec fn check_sqn(expected: Sqn, code: ReplyCode, got: Sqn) -> Result<(), Error> {
    if code != ReplyCode::Busy && got != expected {
        Err(Error::SqnMismatch { expected: expected.spec_value(), got: got.spec_value() })
    } else {
        Ok(())
    }
}

/// Check the sequence number of a reply.
pub fn require_sqn(expected_sqn: Sqn, reply_code: ReplyCode, parsed_sqn: Sqn) -> (r: Result<
    (),
    Error,
>)
    ensures
        r == check_sqn(expected_sqn, reply_code, parsed_sqn),
{
    if reply_code != ReplyCode::Busy && parsed_sqn != expected_sqn {
        return Err(
            Error::SqnMismatch { expected: expected_sqn.value(), got: parsed_sqn.value() },
        );
    }
    Ok(())
}

/// A handshake reply has to come with this security block, for the key that was asked
/// for.
pub open spec fn check_scb(scb: Option<ScbView>, expected: ScsType, key: AcuSecureKey) -> Result<
    (),
    Error,
> {
    match scb {
        Some(scb) => if scb.ty == expected && scb.data == key.scb_data() {
            Ok(())
        } else {
            Err(Error::BadSecurityBlock(scb.ty.spec_byte()))
        },
        None => Err(Error::SecureSession(SecureSessionError::NotSecure)),
    }
}

/// Check the security block of a handshake reply.
pub fn require_scb(scb: Option<&Scb>, expected: ScsType, key: AcuSecureKey) -> (r: Result<
    (),
    Error,
>)
    ensures
        r == check_scb(
            match scb {
                Some(s) => Some(s@),
                None => None,
            },
            expected,
            key,
        ),
{
    match scb {
        Some(scb) => if scb.ty == expected && bytes_equal(
            scb.data.as_slice(),
            key.as_scb_data().as_slice(),
        ) {
            Ok(())
        } else {
            Err(Error::BadSecurityBlock(scb.ty.as_byte()))
        },
        None => Err(Error::SecureSession(SecureSessionError::NotSecure)),
    }
}

/// What SCS_14 says about the server cryptogram. Its `SEC_BLK_DATA` is a status byte, not
/// a key selector.
pub open spec fn check_scs14(scb: Option<ScbView>) -> Result<Scs14Status, Error> {
    match scb {
        Some(scb) => if scb.ty is Scs14 && scb.data == SCS14_STATUS_SUCCESS@ {
            Ok(Scs14Status::Success)
        } else if scb.ty is Scs14 && scb.data == SCS14_STATUS_FAILURE@ {
            Ok(Scs14Status::Failure)
        } else {
            Err(Error::BadSecurityBlock(scb.ty.spec_byte()))
        },
        None => Err(Error::SecureSession(SecureSessionError::NotSecure)),
    }
}

/// Read the status of SCS_14.
pub fn require_scs14_status(scb: Option<&Scb>) -> (r: Result<Scs14Status, Error>)
    ensures
        r == check_scs14(
            match scb {
                Some(s) => Some(s@),
                None => None,
            },
        ),
{
    match scb {
        Some(scb) => {
            let is_scs14 = match scb.ty {
                ScsType::Scs14 => true,
                _ => false,
            };
            if is_scs14 && bytes_equal(scb.data.as_slice(), SCS14_STATUS_SUCCESS.as_slice()) {
                Ok(Scs14Status::Success)
            } else if is_scs14 && bytes_equal(
                scb.data.as_slice(),
                SCS14_STATUS_FAILURE.as_slice(),
            ) {
                Ok(Scs14Status::Failure)
            } else {
                Err(Error::BadSecurityBlock(scb.ty.as_byte()))
            }
        },
        None => Err(Error::SecureSession(SecureSessionError::NotSecure)),
    }
}

/// What a reply to SCS_11 does to the bookkeeping.
pub open spec fn judge_ccrypt(pd: PdStateView, f: ReplyFrame) -> (Result<(), Error>, PdStateView) {
    match check_sqn(pd.next_sqn, f.code, f.sqn) {
        Err(e) => (Err(e), pd),
        Ok(_) => match pd.secure {
            Some(AcuSecureView::Challenged { session, key }) => match check_scb(
                f.scb,
                ScsType::Scs12,
                key,
            ) {
                Err(e) => (Err(e), pd.with_secure(None)),
                Ok(_) => if f.code != ReplyCode::CCrypt {
                    (Err(Error::UnknownReply(f.code.spec_byte())), pd)
                } else {
                    match reply::ccrypt_decode(f.data) {
                        Err(e) => (Err(e), pd.with_secure(None)),
                        Ok(c) => match session::accept_ccrypt(session, c) {
                            Err(e) => (Err(Error::SecureSession(e)), pd.with_secure(None)),
                            Ok(session) => (
                                Ok(()),
                                pd.with_secure(Some(AcuSecureView::Cryptogrammed { session, key })),
                            ),
                        },
                    }
                },
            },
            _ => (Err(Error::SecureSession(SecureSessionError::BadTransition)), pd),
        },
    }
}

/// Take in a reply to SCS_11.
pub fn take_ccrypt(pd: &mut PdState, reply: &ParsedReply) -> (r: Result<(), Error>)
    ensures
        (r, final(pd)@) == judge_ccrypt(old(pd)@, reply@),
{
    require_sqn(pd.next_sqn, reply.code, reply.sqn)?;
    let (session, key) = match pd.secure_state.take() {
        Some(AcuSecureState::Challenged { session, key }) => (session, key),
        other => {
            pd.secure_state = other;
            return Err(Error::SecureSession(SecureSessionError::BadTransition));
        },
    };
    require_scb(reply.scb.as_ref(), ScsType::Scs12, key)?;
    if reply.code != ReplyCode::CCrypt {
        pd.secure_state = Some(AcuSecureState::Challenged { session, key });
        return Err(Error::UnknownReply(reply.code.as_byte()));
    }
    let ccrypt = CCrypt::decode(reply.data.as_slice())?;
    match session.receive_ccrypt(&ccrypt) {
        Ok(session) => {
            pd.secure_state = Some(AcuSecureState::Cryptogrammed { session, key });
            Ok(())
        },
        Err((_, err)) => Err(Error::from(err)),
    }
}

/// What a reply to SCS_13 does to the bookkeeping. `osdp_NAK` with reason 5 and SCS_14
/// with the failure status are two ways to say that the server cryptogram was rejected;
/// both end the handshake.
pub open spec fn judge_rmac_i(pd: PdStateView, f: ReplyFrame) -> (Result<(), Error>, PdStateView) {
    match check_sqn(pd.next_sqn, f.code, f.sqn) {
        Err(e) => (Err(e), pd),
        Ok(_) => match pd.secure {
            Some(AcuSecureView::Cryptogrammed { session, key }) => if f.code == ReplyCode::Nak {
                match reply::nak_decode(f.data) {
                    Err(e) => (Err(e), pd.with_secure(None)),
                    Ok(nak) => (
                        Err(Error::Nak { code: nak.error.spec_byte() }),
                        if nak.error is SecurityBlockTypeNotSupported {
                            pd.with_secure(None)
                        } else {
                            pd
                        },
                    ),
                }
            } else {
                match check_scs14(f.scb) {
                    Err(e) => (Err(e), pd.with_secure(None)),
                    Ok(Scs14Status::Failure) => (
                        Err(Error::SecureSession(SecureSessionError::BadCryptogram)),
                        pd.with_secure(None),
                    ),
                    Ok(Scs14Status::Success) => if f.code != ReplyCode::RMacI {
                        (Err(Error::UnknownReply(f.code.spec_byte())), pd)
                    } else {
                        match reply::rmaci_decode(f.data) {
                            Err(e) => (Err(e), pd.with_secure(None)),
                            Ok(m) => match session::accept_rmac_i(session, m) {
                                Err(e) => (Err(Error::SecureSession(e)), pd.with_secure(None)),
                                Ok(s) => (Ok(()), pd.with_secure(Some(AcuSecureView::Secure(s)))),
                            },
                        }
                    },
                }
            },
            _ => (Err(Error::SecureSession(SecureSessionError::BadTransition)), pd),
        },
    }
}

/// Take in a reply to SCS_13.
pub fn take_rmac_i(pd: &mut PdState, reply: &ParsedReply) -> (r: Result<(), Error>)
    ensures
        (r, final(pd)@) == judge_rmac_i(old(pd)@, reply@),
{
    require_sqn(pd.next_sqn, reply.code, reply.sqn)?;
    let (session, key) = match pd.secure_state.take() {
        Some(AcuSecureState::Cryptogrammed { session, key }) => (session, key),
        other => {
            pd.secure_state = other;
            return Err(Error::SecureSession(SecureSessionError::BadTransition));
        },
    };
    if reply.code == ReplyCode::Nak {
        let nak = Nak::decode(reply.data.as_slice())?;
        if nak.error == NakErrorCode::SecurityBlockTypeNotSupported {
            return Err(Error::Nak { code: nak.error.as_byte() });
        }
        pd.secure_state = Some(AcuSecureState::Cryptogrammed { session, key });
        return Err(Error::Nak { code: nak.error.as_byte() });
    }
    match require_scs14_status(reply.scb.as_ref())? {
        Scs14Status::Success => {},
        Scs14Status::Failure => {
            return Err(Error::SecureSession(SecureSessionError::BadCryptogram));
        },
    }
    if reply.code != ReplyCode::RMacI {
        pd.secure_state = Some(AcuSecureState::Cryptogrammed { session, key });
        return Err(Error::UnknownReply(reply.code.as_byte()));
    }
    let rmac_i = RMacI::decode(reply.data.as_slice())?;
    match session.confirm_rmac_i(&rmac_i.r_mac_i) {
        Ok(session) => {
            pd.secure_state = Some(AcuSecureState::Secure(session));
            Ok(())
        },
        Err((_, err)) => Err(Error::from(err)),
    }
}

/// The DATA of a reply in the clear, with the bookkeeping that it leaves behind. In a
/// secure session only a reply secured by the PD counts; anything else ends the session.
pub open spec fn open_reply(pd: PdStateView, f: ReplyFrame) -> (
    Result<Seq<u8>, Error>,
    PdStateView,
) {
    match pd.session() {
        None => (Ok(f.data), pd),
        Some(s) => match f.scb {
            None => (
                Err(Error::SecureSession(SecureSessionError::NotSecure)),
                pd.with_secure(None),
            ),
            Some(scb) => if !(scb.ty is Scs16 || scb.ty is Scs18) {
                (Err(Error::BadSecurityBlock(scb.ty.spec_byte())), pd.with_secure(None))
            } else {
                match codec::parse_frame(f.raw) {
                    Err(e) => (Err(e), pd.with_secure(None)),
                    Ok((p, _)) => match frame::unseal_frame(s, p, f.raw) {
                        Err(e) => (Err(e), pd.with_secure(None)),
                        Ok((t, data)) => (
                            Ok(data),
                            pd.with_secure(Some(AcuSecureView::Secure(t))),
                        ),
                    },
                }
            },
        },
    }
}

/// Open a reply if the session is secure. The MAC is checked before DATA is looked at,
/// and any failure ends the session.
pub fn unseal_secure_reply_if_established(pd: &mut PdState, reply: &ParsedReply) -> (r: Result<
    Vec<u8>,
    Error,
>)
    requires
        reply@.well_formed(),
    ensures
        (bytes::vec_result(r), final(pd)@) == open_reply(old(pd)@, reply@),
{
    let session = match pd.secure_state.take() {
        Some(AcuSecureState::Secure(session)) => session,
        other => {
            pd.secure_state = other;
            return Ok(slice_to_vec(reply.data.as_slice()));
        },
    };
    match &reply.scb {
        Some(scb) => match scb.ty {
            ScsType::Scs16 | ScsType::Scs18 => {},
            _ => {
                return Err(Error::BadSecurityBlock(scb.ty.as_byte()));
            },
        },
        None => {
            return Err(Error::SecureSession(SecureSessionError::NotSecure));
        },
    }
    let (parsed, _) = ParsedPacket::parse(reply.raw.as_slice())?;
    match unseal(session, &parsed, reply.raw.as_slice()) {
        Ok((session, plaintext)) => {
            pd.secure_state = Some(AcuSecureState::Secure(session));
            Ok(plaintext)
        },
        Err(err) => Err(err.error),
    }
}

} // verus!
