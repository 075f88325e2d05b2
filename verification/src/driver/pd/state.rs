//! Secure-channel state of a PD, and what the application supplies for it.

use vstd::prelude::*;

use crate::command::{Command, CommandView};
use crate::error::Error;
use crate::reply::{Reply, ReplyView};
use crate::secure::session::{
    Disconnected, PdChallenged, PdChallengedView, Secure, SecureView, Session,
};

verus! {

/// Secure-channel key selector from SCS handshake `SEC_BLK_DATA[0]`.
#[derive(Debug, Clone, Copy, PartialEq, Eq, Structural)]
pub enum PdSecureKey {
    /// Current SCBK selected by `SEC_BLK_DATA[0] == 1`.
    Scbk,
    /// Installation default SCBK-D selected by `SEC_BLK_DATA[0] == 0`.
    ScbkD,
}

/// The key that `SEC_BLK_DATA` selects.
pub open spec fn key_selected(data: Seq<u8>) -> Result<PdSecureKey, Error> {
    if data == seq![0u8] {
        Ok(PdSecureKey::ScbkD)
    } else if data == seq![1u8] {
        Ok(PdSecureKey::Scbk)
    } else {
        Err(
            Error::MalformedPayload {
                code: 0x76,
                reason: "SCS handshake SEC_BLK_DATA must be exactly [0] or [1]",
            },
        )
    }
}

impl PdSecureKey {
    /// `SEC_BLK_DATA` that selects the key.
    pub open spec fn scb_data(self) -> Seq<u8> {
        match self {
            PdSecureKey::ScbkD => seq![0],
            PdSecureKey::Scbk => seq![1],
        }
    }

    /// Read `SEC_BLK_DATA`.
    pub fn from_scb_data(data: &[u8]) -> (r: Result<PdSecureKey, Error>)
        ensures
            r == key_selected(data@),
    {
        if data.len() == 1 && data[0] == 0 {
            assert(data@ =~= seq![0u8]);
            return Ok(PdSecureKey::ScbkD);
        }
        if data.len() == 1 && data[0] == 1 {
            assert(data@ =~= seq![1u8]);
            assert(data@[0] != seq![0u8][0]);
            return Ok(PdSecureKey::Scbk);
        }
        assert(data@ == seq![0u8] ==> data@[0] == 0);
        assert(data@ == seq![1u8] ==> data@[0] == 1);
        Err(
            Error::MalformedPayload {
                code: 0x76,
                reason: "SCS handshake SEC_BLK_DATA must be exactly [0] or [1]",
            },
        )
    }

    /// `SEC_BLK_DATA` that selects the key.
    pub fn as_scb_data(&self) -> (d: [u8; 1])
        ensures
            d@ == self.scb_data(),
    {
        let d: [u8; 1] = match self {
            PdSecureKey::ScbkD => [0],
            PdSecureKey::Scbk => [1],
        };
        assert(d@ =~= self.scb_data());
        d
    }
}

/// A selector that was written is read back as it was.
pub proof fn law_key_selector_round_trip(key: PdSecureKey)
    ensures
        key_selected(key.scb_data()) == Ok::<PdSecureKey, Error>(key),
{
    assert(seq![0u8][0] == 0 && seq![1u8][0] == 1);
}

/// Something that the application did for the driver.
pub enum HandlerEvent {
    /// It answered a command.
    Replied(CommandView, ReplyView),
    /// It supplied the key that was selected.
    Key(PdSecureKey, Seq<u8>),
    /// It supplied a random challenge.
    Random(Seq<u8>),
}

/// PD-side application logic. Each incoming command becomes a method call; the handler
/// returns the reply to emit.
pub trait PdHandler {
    /// Everything done for the driver so far, oldest first. Only a verified implementation
    /// has to say it.
    open spec fn history(&self) -> Seq<HandlerEvent> {
        arbitrary()
    }

    /// Dispatch a fully-decoded command and return the reply payload.
    fn on_command(&mut self, command: &Command) -> (r: Reply)
        ensures
            final(self).history() == old(self).history().push(
                HandlerEvent::Replied(command@, r@),
            ),
    ;

    /// Return the SCBK requested by the secure-channel handshake, where no
    /// [`PdSecureKeyProvider`] is installed.
    ///
    /// Key ownership is application state, so the PD driver asks instead of storing keys. A
    /// handler that does not define this method denies every handshake.
    fn secure_channel_key(&mut self, selection: PdSecureKey) -> (r: Option<[u8; 16]>)
        ensures
            final(self).history() == match r {
                Some(k) => old(self).history().push(HandlerEvent::Key(selection, k@)),
                None => old(self).history(),
            },
        default_ensures
            r is None,
    {
        let _ = selection;
        None
    }

    /// Produce the PD random challenge `RND.B` for SCS_12, where the driver is polled
    /// without a random source.
    ///
    /// Tests may return deterministic bytes; production handlers should use their platform
    /// RNG.
    fn secure_channel_random(&mut self) -> (r: Option<[u8; 8]>)
        ensures
            final(self).history() == match r {
                Some(b) => old(self).history().push(HandlerEvent::Random(b@)),
                None => old(self).history(),
            },
        default_ensures
            r is None,
    {
        None
    }
}

/// An optional array in terms of contents.
pub open spec fn array_view<const N: usize>(a: Option<[u8; N]>) -> Option<Seq<u8>> {
    match a {
        Some(bytes) => Some(bytes@),
        None => None,
    }
}

/// Application-owned PD key policy for secure-channel handshakes.
pub trait PdSecureKeyProvider {
    /// Every request so far with its answer, oldest first. Only a verified implementation
    /// has to say it.
    open spec fn answers(&self) -> Seq<(PdSecureKey, Option<Seq<u8>>)> {
        arbitrary()
    }

    /// Return the key that the ACU selected, or `None` to deny the handshake.
    fn secure_key_for(&mut self, selection: PdSecureKey) -> (r: Option<[u8; 16]>)
        ensures
            final(self).answers() == old(self).answers().push(
                (
                    selection,
                    match r {
                        Some(k) => Some(k@),
                        None => None,
                    },
                ),
            ),
    ;
}

/// Key policy of a PD without a provider of its own. It is never asked.
pub struct HandlerKeys {
    /// Every request so far with its answer, for specifications only.
    pub asked: Ghost<Seq<(PdSecureKey, Option<Seq<u8>>)>>,
}

impl PdSecureKeyProvider for HandlerKeys {
    open spec fn answers(&self) -> Seq<(PdSecureKey, Option<Seq<u8>>)> {
        self.asked@
    }

    fn secure_key_for(&mut self, selection: PdSecureKey) -> (r: Option<[u8; 16]>)
        ensures
            r is None,
    {
        self.asked = Ghost(self.asked@.push((selection, None)));
        None
    }
}

/// Static secure-channel identity used by the PD handshake.
#[derive(Debug, Clone, Copy)]
pub struct PdSecureConfig {
    /// PD client identifier sent in `osdp_CCRYPT`.
    pub cuid: [u8; 8],
}

/// Progress of the secure channel with the ACU.
#[derive(Debug)]
pub enum PdSecureState {
    /// A handshake or a session has failed.
    Disconnected(Session<Disconnected>),
    /// SCS_12 is out.
    Challenged {
        /// Handshake so far.
        session: Session<PdChallenged>,
        /// Key that the ACU asked for.
        key: PdSecureKey,
    },
    /// SCS_14 is out.
    Secure(Session<Secure>),
}

/// Contents of a [`PdSecureState`].
#[verifier::ext_equal]
pub enum PdSecureView {
    /// A handshake or a session over this base key has failed.
    Disconnected(Seq<u8>),
    /// SCS_12 is out.
    Challenged { session: PdChallengedView, key: PdSecureKey },
    /// SCS_14 is out.
    Secure(SecureView),
}

impl View for PdSecureState {
    type V = PdSecureView;

    open spec fn view(&self) -> PdSecureView {
        match *self {
            PdSecureState::Disconnected(session) => PdSecureView::Disconnected(session@),
            PdSecureState::Challenged { session, key } => PdSecureView::Challenged {
                session: session@,
                key,
            },
            PdSecureState::Secure(session) => PdSecureView::Secure(session@),
        }
    }
}

/// Contents of an optional secure-channel state.
pub open spec fn secure_view(state: Option<PdSecureState>) -> Option<PdSecureView> {
    match state {
        Some(s) => Some(s@),
        None => None,
    }
}

/// True once the handshake has completed.
pub fn is_secure_session_established(state: &Option<PdSecureState>) -> (r: bool)
    ensures
        r == (secure_view(*state) matches Some(PdSecureView::Secure(_))),
{
    match state {
        Some(PdSecureState::Secure(_)) => true,
        _ => false,
    }
}

/// One byte selects the key, 0 the installation key and 1 the current one. Anything else,
/// more bytes or none among it, selects none.
pub proof fn law_one_byte_selects_the_key(data: Seq<u8>)
    ensures
        match key_selected(data) {
            Ok(key) => {
                &&& data.len() == 1
                &&& key is ScbkD ==> data[0] == 0
                &&& key is Scbk ==> data[0] == 1
                &&& key.scb_data() == data
            },
            Err(e) => {
                &&& data.len() != 1 || data[0] > 1
                &&& e is MalformedPayload
                &&& e->MalformedPayload_code == 0x76
            },
        },
{
    if data.len() == 1 {
        assert(data =~= seq![data[0]]);
    }
}

} // verus!
