//! What the ACU keeps about each PD.

use vstd::prelude::*;

use crate::packet::control::Sqn;
use crate::secure::session::{
    Challenged, ChallengedView, Cryptogrammed, CryptogrammedView, Secure, SecureView, Session,
};
use crate::OFFLINE_THRESHOLD_MS;

verus! {

/// Secure-channel key selector used in SCS-CS `SEC_BLK_DATA[0]`.
#[derive(Debug, Clone, Copy, PartialEq, Eq, Structural)]
pub enum AcuSecureKey {
    /// Current SCBK selected by `SEC_BLK_DATA[0] == 1`.
    Scbk,
    /// Installation default SCBK-D selected by `SEC_BLK_DATA[0] == 0`.
    ScbkD,
}

impl AcuSecureKey {
    /// `SEC_BLK_DATA` that selects the key.
    pub open spec fn scb_data(self) -> Seq<u8> {
        match self {
            AcuSecureKey::ScbkD => seq![0],
            AcuSecureKey::Scbk => seq![1],
        }
    }

    /// `SEC_BLK_DATA` that selects the key.
    pub fn as_scb_data(&self) -> (d: [u8; 1])
        ensures
            d@ == self.scb_data(),
    {
        let d: [u8; 1] = match self {
            AcuSecureKey::ScbkD => [0],
            AcuSecureKey::Scbk => [1],
        };
        assert(d@ =~= self.scb_data());
        d
    }
}

/// ACU-side secure-channel key material for one PD handshake.
#[derive(Debug, Clone, Copy, PartialEq, Eq)]
pub struct AcuSecureKeyMaterial {
    /// Which key the ACU asks the PD to use in SCS_11 `SEC_BLK_DATA[0]`.
    pub selection: AcuSecureKey,
    /// The 16-byte SCBK value corresponding to `selection`.
    pub scbk: [u8; 16],
}

/// Application-owned ACU key policy for secure-channel handshakes.
///
/// The ACU driver does not store SCBKs or install-mode policy. Before sending SCS_11 it
/// asks the provider which key material, if any, should be used for the addressed PD.
pub trait AcuSecureKeyProvider {
    /// Every request so far with its answer, oldest first. Only a verified implementation
    /// has to say it.
    open spec fn answers(&self) -> Seq<(u8, Option<AcuSecureKeyMaterial>)> {
        arbitrary()
    }

    /// Return key material for `pd_addr`, or `None` to deny SCS-CS startup.
    fn secure_key_for(&mut self, pd_addr: u8) -> (r: Option<AcuSecureKeyMaterial>)
        ensures
            final(self).answers() == old(self).answers().push((pd_addr, r)),
    ;
}

/// Progress of the secure channel with one PD.
#[allow(inconsistent_fields)]
#[derive(Debug, Clone)]
pub enum AcuSecureState {
    /// SCS_11 is out.
    Challenged {
        /// Handshake so far.
        session: Session<Challenged>,
        /// Key that the handshake asked for.
        key: AcuSecureKey,
    },
    /// SCS_12 was right.
    Cryptogrammed {
        /// Handshake so far.
        session: Session<Cryptogrammed>,
        /// Key that the handshake asked for.
        key: AcuSecureKey,
    },
    /// SCS_14 was right.
    Secure(Session<Secure>),
}

/// Contents of an [`AcuSecureState`].
#[allow(inconsistent_fields)]
#[verifier::ext_equal]
pub enum AcuSecureView {
    /// SCS_11 is out.
    Challenged { session: ChallengedView, key: AcuSecureKey },
    /// SCS_12 was right.
    Cryptogrammed { session: CryptogrammedView, key: AcuSecureKey },
    /// SCS_14 was right.
    Secure(SecureView),
}

impl View for AcuSecureState {
    type V = AcuSecureView;

    open spec fn view(&self) -> AcuSecureView {
        match *self {
            AcuSecureState::Challenged { session, key } => AcuSecureView::Challenged {
                session: session@,
                key,
            },
            AcuSecureState::Cryptogrammed { session, key } => AcuSecureView::Cryptogrammed {
                session: session@,
                key,
            },
            AcuSecureState::Secure(session) => AcuSecureView::Secure(session@),
        }
    }
}

/// Per-PD bookkeeping owned by the ACU driver.
#[derive(Debug, Clone)]
pub struct PdState {
    /// Next SQN to send.
    pub next_sqn: Sqn,
    /// Whether the PD prefers CRC trailers.
    pub use_crc: bool,
    /// Last successful exchange (ms, from the clock).
    pub last_seen_ms: u64,
    /// Strictly true once `last_seen_ms` has been set at least once.
    pub seen_at_least_once: bool,
    /// Progress of the secure channel.
    pub secure_state: Option<AcuSecureState>,
}

/// Contents of a [`PdState`].
#[verifier::ext_equal]
pub struct PdStateView {
    /// Next SQN to send.
    pub next_sqn: Sqn,
    /// Whether the PD prefers CRC trailers.
    pub use_crc: bool,
    /// Last successful exchange.
    pub last_seen_ms: u64,
    /// Whether there has been one.
    pub seen: bool,
    /// Progress of the secure channel.
    pub secure: Option<AcuSecureView>,
}

impl View for PdState {
    type V = PdStateView;

    open spec fn view(&self) -> PdStateView {
        PdStateView {
            next_sqn: self.next_sqn,
            use_crc: self.use_crc,
            last_seen_ms: self.last_seen_ms,
            seen: self.seen_at_least_once,
            secure: match self.secure_state {
                Some(s) => Some(s@),
                None => None,
            },
        }
    }
}

/// Milliseconds from `then` to `now`; none if the clock went back.
pub open spec fn elapsed(now: u64, then: u64) -> int {
    if now >= then {
        now - then
    } else {
        0
    }
}

impl PdStateView {
    /// Bookkeeping about a PD that was never heard of.
    pub open spec fn fresh() -> PdStateView {
        PdStateView {
            next_sqn: Sqn::Zero,
            use_crc: true,
            last_seen_ms: 0,
            seen: false,
            secure: None,
        }
    }

    /// The next command gets the next number.
    pub open spec fn bumped(self) -> PdStateView {
        PdStateView { next_sqn: self.next_sqn.spec_next(), ..self }
    }

    /// The PD was heard of at `now`.
    pub open spec fn seen_at(self, now: u64) -> PdStateView {
        PdStateView { last_seen_ms: now, seen: true, ..self }
    }

    /// Another secure-channel state.
    pub open spec fn with_secure(self, secure: Option<AcuSecureView>) -> PdStateView {
        PdStateView { secure, ..self }
    }

    /// The PD has been silent for too long at `now`.
    pub open spec fn is_offline(self, now: u64) -> bool {
        self.seen && elapsed(now, self.last_seen_ms) >= OFFLINE_THRESHOLD_MS
    }

    /// The handshake has completed.
    pub open spec fn is_secure(self) -> bool {
        self.secure matches Some(AcuSecureView::Secure(_))
    }

    /// The session, where the handshake has completed.
    pub open spec fn session(self) -> Option<SecureView> {
        match self.secure {
            Some(AcuSecureView::Secure(s)) => Some(s),
            _ => None,
        }
    }
}

impl Default for PdState {
    fn default() -> (s: Self)
        ensures
            s@ == PdStateView::fresh(),
    {
        PdState {
            next_sqn: Sqn::ZERO,
            use_crc: true,
            last_seen_ms: 0,
            seen_at_least_once: false,
            secure_state: None,
        }
    }
}

impl PdState {
    /// Advance SQN.
    pub fn bump_sqn(&mut self)
        ensures
            final(self)@ == old(self)@.bumped(),
            final(self).secure_state == old(self).secure_state,
    {
        self.next_sqn = self.next_sqn.next();
    }

    /// Mark the PD as seen.
    pub fn mark_seen(&mut self, now_ms: u64)
        ensures
            final(self)@ == old(self)@.seen_at(now_ms),
            final(self).secure_state == old(self).secure_state,
    {
        self.last_seen_ms = now_ms;
        self.seen_at_least_once = true;
    }

    /// `true` once we've ever heard from the PD and the last exchange is older than
    /// [`OFFLINE_THRESHOLD_MS`]. Returns `false` while we are still in the
    /// initial-connect window.
    pub fn is_offline(&self, now_ms: u64) -> (r: bool)
        ensures
            r == self@.is_offline(now_ms),
    {
        self.seen_at_least_once && now_ms.saturating_sub(self.last_seen_ms)
            >= OFFLINE_THRESHOLD_MS as u64
    }

    /// Reset to the freshly-booted state. Call this when an off-line PD should be
    /// re-discovered from scratch.
    pub fn reset(&mut self)
        ensures
            final(self)@ == PdStateView::fresh(),
    {
        *self = PdState::default();
    }

    /// True once the SCS-CS handshake has completed.
    pub fn is_secure(&self) -> (r: bool)
        ensures
            r == self@.is_secure(),
    {
        self.secure_session().is_some()
    }

    /// Borrow the established ACU-side secure session, if present.
    pub fn secure_session(&self) -> (r: Option<&Session<Secure>>)
        ensures
            match r {
                Some(s) => self@.session() == Some(s@) && self.secure_state == Some(
                    AcuSecureState::Secure(*s),
                ),
                None => self@.session() is None,
            },
    {
        match &self.secure_state {
            Some(AcuSecureState::Secure(session)) => Some(session),
            _ => None,
        }
    }
}

/// A PD that was never heard of is not off-line, one that was just heard of is not
/// either, and silence puts a PD off-line from [`OFFLINE_THRESHOLD_MS`] on.
pub proof fn law_offline_window(pd: PdStateView, seen_at: u64, now: u64)
    ensures
        !PdStateView::fresh().is_offline(now),
        pd.seen_at(seen_at).is_offline(now) <==> now >= seen_at + OFFLINE_THRESHOLD_MS,
        pd.seen_at(seen_at).bumped().is_offline(now) == pd.seen_at(seen_at).is_offline(now),
{
}

/// What each step does to the bookkeeping, field by field: a fresh one starts the
/// conversation anew, with CRC trailers and without a session; advancing changes the
/// sequence number alone, in the order 0, 1, 2, 3, 1, ...; a sign of life changes the time
/// of the last one, and nothing else; the secure-channel state is set by itself. A session
/// stands exactly in the last of the three secure-channel states.
pub proof fn law_bookkeeping_steps(
    pd: PdStateView,
    now: u64,
    secure: Option<AcuSecureView>,
    s: SecureView,
)
    ensures
        ({
            let fresh = PdStateView::fresh();
            &&& fresh.next_sqn.spec_value() == 0
            &&& fresh.use_crc
            &&& fresh.last_seen_ms == 0
            &&& !fresh.seen
            &&& fresh.secure is None
        }),
        ({
            let after = pd.bumped();
            &&& after.next_sqn.spec_value() == if pd.next_sqn.spec_value() == 3 {
                1
            } else {
                pd.next_sqn.spec_value() + 1
            }
            &&& after.use_crc == pd.use_crc
            &&& after.last_seen_ms == pd.last_seen_ms
            &&& after.seen == pd.seen
            &&& after.secure == pd.secure
        }),
        ({
            let after = pd.seen_at(now);
            &&& after.next_sqn == pd.next_sqn
            &&& after.use_crc == pd.use_crc
            &&& after.last_seen_ms == now
            &&& after.seen
            &&& after.secure == pd.secure
        }),
        ({
            let after = pd.with_secure(secure);
            &&& after.next_sqn == pd.next_sqn
            &&& after.use_crc == pd.use_crc
            &&& after.last_seen_ms == pd.last_seen_ms
            &&& after.seen == pd.seen
            &&& after.secure == secure
        }),
        pd.is_secure() <==> pd.session() is Some,
        pd.session() == Some(s) <==> pd.secure == Some(AcuSecureView::Secure(s)),
{
}

/// A clock that goes forward shows the time that has passed; one that has gone back shows
/// that none has. A PD that has been heard of is off-line from eight seconds of silence on.
pub proof fn law_time_passes(pd: PdStateView, then: u64, now: u64)
    ensures
        now >= then ==> elapsed(now, then) == now - then,
        now < then ==> elapsed(now, then) == 0,
        pd.is_offline(now) <==> pd.seen && now >= pd.last_seen_ms + 8000,
{
}

} // verus!
