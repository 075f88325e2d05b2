//! The ACU driver against in-memory transports and an in-memory PD.

use osdp::clock::Clock;
use osdp::command::{Command, Id, Poll};
use osdp::driver::acu::{
    Acu, AcuSecureKey, AcuSecureKeyMaterial, AcuSecureKeyProvider, ExchangeOutcome, PdState,
    RetryConfig,
};
use osdp::driver::pd::{Pd, PdHandler, PdSecureConfig, PdSecureKey, PdSecureKeyProvider};
use osdp::error::{Error, SecureSessionError};
use osdp::packet::{
    Address, ControlByte, CtrlFlags, PacketBuilder, ParsedPacket, Scb, ScsType, Sqn, MAC_LEN,
};
use osdp::reply::{Ack, Nak, NakErrorCode, PdId, RMacI, Reply, ReplyCode};
use osdp::secure::{SecureRandom, SCBK_D};
use osdp::transport::{Transport, VecTransport};
use osdp::{OFFLINE_THRESHOLD_MS, REPLY_DELAY_MS, SOM};
use std::cell::Cell;
use std::collections::VecDeque;
use std::rc::Rc;

/// Clock that shows what it is set to.
#[derive(Clone)]
struct MockClock(Rc<Cell<u64>>);

impl MockClock {
    fn new() -> Self {
        MockClock(Rc::new(Cell::new(0)))
    }

    fn set(&self, ms: u64) {
        self.0.set(ms);
    }
}

impl Clock for MockClock {
    fn now_ms(&self) -> u64 {
        self.0.get()
    }
}

const TEST_SCBK: [u8; 16] = [0xA5; 16];
struct FixedRandom([u8; 8]);
impl SecureRandom for FixedRandom {
    fn fill_secure_random(&mut self, out: &mut [u8]) -> Result<(), Error> {
        assert_eq!(out.len(), self.0.len());
        out.copy_from_slice(&self.0);
        Ok(())
    }
}
struct FixedAcuKeys(Option<AcuSecureKeyMaterial>);
impl AcuSecureKeyProvider for FixedAcuKeys {
    fn secure_key_for(&mut self, _pd_addr: u8) -> Option<AcuSecureKeyMaterial> {
        self.0
    }
}
fn scbk_d_material() -> AcuSecureKeyMaterial {
    AcuSecureKeyMaterial {
        selection: AcuSecureKey::ScbkD,
        scbk: SCBK_D,
    }
}
fn scbk_material() -> AcuSecureKeyMaterial {
    AcuSecureKeyMaterial {
        selection: AcuSecureKey::Scbk,
        scbk: TEST_SCBK,
    }
}
#[derive(Clone)]
struct FixedPdKeys {
    scbk: Option<[u8; 16]>,
    scbk_d: Option<[u8; 16]>,
}
impl FixedPdKeys {
    fn scbk_d_only() -> Self {
        Self {
            scbk: None,
            scbk_d: Some(SCBK_D),
        }
    }

    fn both() -> Self {
        Self {
            scbk: Some(TEST_SCBK),
            scbk_d: Some(SCBK_D),
        }
    }
}
impl PdSecureKeyProvider for FixedPdKeys {
    fn secure_key_for(&mut self, selection: PdSecureKey) -> Option<[u8; 16]> {
        match selection {
            PdSecureKey::Scbk => self.scbk,
            PdSecureKey::ScbkD => self.scbk_d,
        }
    }
}

struct AckPd;

impl PdHandler for AckPd {
    fn on_command(&mut self, _command: &Command) -> Reply {
        Reply::Ack(Ack)
    }
}

#[test]
fn send_poll_emits_correct_bytes() {
    let clock = MockClock::new();
    let transport = VecTransport::new();
    let mut acu = Acu::new(transport, clock);
    let mut pd = PdState::default();
    let bytes = acu.send_to(0x05, &mut pd, &Command::Poll(Poll)).unwrap();
    assert_eq!(bytes[0], SOM);
    assert_eq!(bytes[1], 0x05);
    assert_eq!(bytes[4] & 0x0F, 0x04); // SQN=0, CRC=on
}

#[test]
fn exchange_offline_when_silent() {
    let clock = MockClock::new();
    let transport = VecTransport::new();
    let mut acu = Acu::new(transport, clock.clone());
    acu.retry = RetryConfig {
        max_retries: 0,
        overall_budget_ms: 0,
    };
    let mut pd = PdState::default();
    // Pretend we'd seen the PD long ago.
    pd.mark_seen(0);
    clock.set(OFFLINE_THRESHOLD_MS as u64 + 1);
    let outcome = acu.exchange(0x05, &mut pd, &Command::Poll(Poll)).unwrap();
    assert_eq!(outcome, ExchangeOutcome::Offline);
}

#[test]
fn timeout_then_no_more_retries_returns_timeout() {
    let clock = MockClock::new();
    let transport = VecTransport::new();
    let mut acu = Acu::new(transport, clock.clone());
    acu.retry = RetryConfig {
        max_retries: 0,
        overall_budget_ms: 0,
    };
    let mut pd = PdState::default();
    pd.mark_seen(0);
    // Advance just enough that we're hitting the per-attempt budget but
    // not yet off-line.
    clock.set(REPLY_DELAY_MS as u64 + 1);
    let outcome = acu.exchange(0x05, &mut pd, &Command::Poll(Poll)).unwrap();
    assert_eq!(outcome, ExchangeOutcome::Timeout);
}

#[test]
fn exchange_rejects_reply_with_wrong_sqn() {
    // The ACU sends with SQN=1; we feed it back an ACK that claims SQN=2. Such a PD is out
    // of step and must be rejected.
    let clock = MockClock::new();
    let mut transport = VecTransport::new();
    let stale = PacketBuilder::plain(
        Address::reply(0x05).unwrap(),
        ControlByte::new(Sqn::new(2).unwrap(), CtrlFlags::crc()),
        ReplyCode::Ack.as_byte(),
        Vec::new(),
    )
    .encode()
    .unwrap();
    transport.feed(&stale);

    let mut acu = Acu::new(transport, clock);
    acu.retry = RetryConfig {
        max_retries: 0,
        overall_budget_ms: 0,
    };
    let mut pd = PdState {
        next_sqn: Sqn::new(1).unwrap(),
        ..Default::default()
    };
    pd.mark_seen(0);

    let err = acu
        .exchange(0x05, &mut pd, &Command::Poll(Poll))
        .unwrap_err();
    assert!(matches!(
        err,
        Error::SqnMismatch {
            expected: 1,
            got: 2
        }
    ));
}

#[test]
fn exchange_accepts_busy_with_sqn_zero() {
    // BUSY always carries SQN=0 regardless of what the ACU sent. It is accepted instead of
    // being flagged as an SQN mismatch.
    let clock = MockClock::new();
    let mut transport = VecTransport::new();
    let busy = PacketBuilder::plain(
        Address::reply(0x05).unwrap(),
        ControlByte::new(Sqn::ZERO, CtrlFlags::crc()),
        ReplyCode::Busy.as_byte(),
        Vec::new(),
    )
    .encode()
    .unwrap();
    transport.feed(&busy);

    let mut acu = Acu::new(transport, clock);
    acu.retry = RetryConfig {
        max_retries: 0,
        overall_budget_ms: 0,
    };
    let mut pd = PdState {
        next_sqn: Sqn::new(2).unwrap(),
        ..Default::default()
    };
    pd.mark_seen(0);

    let outcome = acu.exchange(0x05, &mut pd, &Command::Poll(Poll)).unwrap();
    assert_eq!(outcome, ExchangeOutcome::Busy);
}
#[test]
fn secure_handshake_round_trips_with_pd_driver() {
    let mut acu = Acu::new(VecTransport::new(), MockClock::new());
    let mut pd_driver = Pd::new(VecTransport::new(), MockClock::new(), 0x05, AckPd)
        .with_secure_channel_keys(PdSecureConfig { cuid: [0xC1; 8] }, FixedPdKeys::scbk_d_only());
    let mut state = PdState::default();
    let mut keys = FixedAcuKeys(Some(scbk_d_material()));
    let mut acu_rng = FixedRandom([0xA1; 8]);
    let mut pd_rng = FixedRandom([0xB2; 8]);

    acu.send_secure_challenge(0x05, &mut state, &mut keys, &mut acu_rng)
        .unwrap();
    acu.transport().shuffle_to(pd_driver.transport());
    assert!(pd_driver.poll_once_with_rng(&mut pd_rng).unwrap());
    pd_driver.transport().shuffle_to(acu.transport());
    acu.receive_secure_ccrypt(&mut state).unwrap();

    acu.send_secure_scrypt(0x05, &mut state).unwrap();
    acu.transport().shuffle_to(pd_driver.transport());
    assert!(pd_driver.poll_once_with_rng(&mut pd_rng).unwrap());
    pd_driver.transport().shuffle_to(acu.transport());
    acu.receive_secure_rmac_i(&mut state).unwrap();

    assert!(state.is_secure());
    assert_eq!(state.next_sqn.value(), 2);
}
struct SecurePd;
impl PdHandler for SecurePd {
    fn on_command(&mut self, command: &Command) -> Reply {
        match command {
            Command::Id(_) => Reply::PdId(PdId {
                vendor_oui: [0x00, 0x06, 0x8E],
                model: 0x12,
                version: 0x34,
                serial: 0xCAFE_BABE,
                firmware: [1, 2, 3],
            }),
            _ => Reply::Ack(Ack),
        }
    }
}
struct LoopbackPdTransport {
    pd: Pd<VecTransport, MockClock, SecurePd, FixedPdKeys>,
    rng: FixedRandom,
    incoming: VecDeque<u8>,
    writes: Vec<Vec<u8>>,
    replies: Vec<Vec<u8>>,
    drop_next_reply: bool,
}
impl LoopbackPdTransport {
    fn new() -> Self {
        Self {
            pd: Pd::new(VecTransport::new(), MockClock::new(), 0x05, SecurePd)
                .with_secure_channel_keys(PdSecureConfig { cuid: [0xC1; 8] }, FixedPdKeys::both()),
            rng: FixedRandom([0xB2; 8]),
            incoming: VecDeque::new(),
            writes: Vec::new(),
            replies: Vec::new(),
            drop_next_reply: false,
        }
    }

    fn drop_next_reply(&mut self) {
        self.drop_next_reply = true;
    }

    fn last_write(&self) -> &[u8] {
        self.writes.last().unwrap()
    }

    fn last_reply(&self) -> &[u8] {
        self.replies.last().unwrap()
    }
}
impl Transport for LoopbackPdTransport {
    fn write_all(&mut self, bytes: &[u8]) -> Result<(), Error> {
        self.writes.push(bytes.to_vec());
        self.pd.transport().feed(bytes);
        self.pd.poll_once_with_rng(&mut self.rng)?;
        let reply: Vec<u8> = self.pd.transport().outgoing.drain(..).collect();
        if self.drop_next_reply {
            self.drop_next_reply = false;
        } else {
            self.incoming.extend(reply.iter().copied());
        }
        self.replies.push(reply);
        Ok(())
    }

    fn read(&mut self, buf: &mut [u8]) -> Result<usize, Error> {
        let n = buf.len().min(self.incoming.len());
        for slot in buf.iter_mut().take(n) {
            *slot = self.incoming.pop_front().unwrap();
        }
        Ok(n)
    }
}
struct SilentTransport {
    writes: Vec<Vec<u8>>,
    clock: Option<MockClock>,
    advance_to_ms: u64,
}
impl SilentTransport {
    fn new() -> Self {
        Self {
            writes: Vec::new(),
            clock: None,
            advance_to_ms: 0,
        }
    }

    fn advancing(clock: MockClock, advance_to_ms: u64) -> Self {
        Self {
            writes: Vec::new(),
            clock: Some(clock),
            advance_to_ms,
        }
    }
}
impl Transport for SilentTransport {
    fn write_all(&mut self, bytes: &[u8]) -> Result<(), Error> {
        self.writes.push(bytes.to_vec());
        Ok(())
    }

    fn read(&mut self, _buf: &mut [u8]) -> Result<usize, Error> {
        if let Some(clock) = self.clock.take() {
            clock.set(self.advance_to_ms);
        }
        Ok(0)
    }
}
fn establish_secure_state() -> PdState {
    let mut acu = Acu::new(LoopbackPdTransport::new(), MockClock::new());
    let mut state = PdState::default();
    let mut keys = FixedAcuKeys(Some(scbk_d_material()));
    let mut rng = FixedRandom([0xA1; 8]);

    acu.establish_secure_channel(0x05, &mut state, &mut keys, &mut rng)
        .unwrap();

    assert!(state.is_secure());
    state
}
#[test]
fn establish_secure_channel_runs_full_handshake() {
    let mut acu = Acu::new(LoopbackPdTransport::new(), MockClock::new());
    let mut state = PdState::default();
    let mut keys = FixedAcuKeys(Some(scbk_d_material()));
    let mut rng = FixedRandom([0xA1; 8]);

    acu.establish_secure_channel(0x05, &mut state, &mut keys, &mut rng)
        .unwrap();

    assert!(state.is_secure());
    assert_eq!(state.next_sqn.value(), 2);

    let writes = &acu.transport().writes;
    assert_eq!(writes.len(), 2);
    let (parsed, _) = ParsedPacket::parse(&writes[0]).unwrap();
    let scb = parsed.scb.unwrap();
    assert_eq!(scb.ty, ScsType::Scs11);
    assert_eq!(scb.data, &[0]);
    let (parsed, _) = ParsedPacket::parse(&writes[1]).unwrap();
    assert_eq!(parsed.scb.unwrap().ty, ScsType::Scs13);
    let replies = &acu.transport().replies;
    let (parsed, _) = ParsedPacket::parse(&replies[1]).unwrap();
    let scb = parsed.scb.unwrap();
    assert_eq!(scb.ty, ScsType::Scs14);
    assert_eq!(scb.data, &[1]);
}
#[test]
fn establish_secure_channel_uses_current_scbk_when_provider_selects_it() {
    let mut acu = Acu::new(LoopbackPdTransport::new(), MockClock::new());
    let mut state = PdState::default();
    let mut keys = FixedAcuKeys(Some(scbk_material()));
    let mut rng = FixedRandom([0xA1; 8]);

    acu.establish_secure_channel(0x05, &mut state, &mut keys, &mut rng)
        .unwrap();

    assert!(state.is_secure());
    assert_eq!(state.next_sqn.value(), 2);

    let writes = &acu.transport().writes;
    assert_eq!(writes.len(), 2);
    let (parsed, _) = ParsedPacket::parse(&writes[0]).unwrap();
    let scb = parsed.scb.unwrap();
    assert_eq!(scb.ty, ScsType::Scs11);
    assert_eq!(scb.data, &[1]);
    let replies = &acu.transport().replies;
    let (parsed, _) = ParsedPacket::parse(&replies[1]).unwrap();
    let scb = parsed.scb.unwrap();
    assert_eq!(scb.ty, ScsType::Scs14);
    assert_eq!(scb.data, &[1]);
}
#[test]
fn establish_secure_channel_fails_without_key_material_before_scs_11() {
    let mut acu = Acu::new(LoopbackPdTransport::new(), MockClock::new());
    let mut state = PdState::default();
    let mut keys = FixedAcuKeys(None);
    let mut rng = FixedRandom([0xA1; 8]);

    let err = acu
        .establish_secure_channel(0x05, &mut state, &mut keys, &mut rng)
        .unwrap_err();

    assert!(matches!(
        err,
        Error::SecureSession(SecureSessionError::KeyUnavailable)
    ));
    assert!(!state.is_secure());
    assert!(acu.transport().writes.is_empty());
}
#[test]
fn receive_scs14_nak_failure_resets_secure_state() {
    let mut acu = Acu::new(VecTransport::new(), MockClock::new());
    let mut pd_driver = Pd::new(VecTransport::new(), MockClock::new(), 0x05, SecurePd)
        .with_secure_channel_keys(PdSecureConfig { cuid: [0xC1; 8] }, FixedPdKeys::scbk_d_only());
    let mut state = PdState::default();
    let mut keys = FixedAcuKeys(Some(scbk_d_material()));
    let mut acu_rng = FixedRandom([0xA1; 8]);
    let mut pd_rng = FixedRandom([0xB2; 8]);

    acu.send_secure_challenge(0x05, &mut state, &mut keys, &mut acu_rng)
        .unwrap();
    acu.transport().shuffle_to(pd_driver.transport());
    assert!(pd_driver.poll_once_with_rng(&mut pd_rng).unwrap());
    pd_driver.transport().shuffle_to(acu.transport());
    acu.receive_secure_ccrypt(&mut state).unwrap();

    let failure = PacketBuilder::plain(
        Address::reply(0x05).unwrap(),
        ControlByte::new(state.next_sqn, CtrlFlags::crc()),
        ReplyCode::Nak.as_byte(),
        Nak::simple(NakErrorCode::SecurityBlockTypeNotSupported)
            .encode()
            .unwrap(),
    )
    .encode()
    .unwrap();
    acu.transport().feed(&failure);

    let err = acu.receive_secure_rmac_i(&mut state).unwrap_err();

    assert!(matches!(err, Error::Nak { code: 0x05 }));
    assert!(!state.is_secure());
}
#[test]
fn receive_scs14_status_failure_resets_secure_state() {
    let mut acu = Acu::new(VecTransport::new(), MockClock::new());
    let mut pd_driver = Pd::new(VecTransport::new(), MockClock::new(), 0x05, SecurePd)
        .with_secure_channel_keys(PdSecureConfig { cuid: [0xC1; 8] }, FixedPdKeys::scbk_d_only());
    let mut state = PdState::default();
    let mut keys = FixedAcuKeys(Some(scbk_d_material()));
    let mut acu_rng = FixedRandom([0xA1; 8]);
    let mut pd_rng = FixedRandom([0xB2; 8]);

    acu.send_secure_challenge(0x05, &mut state, &mut keys, &mut acu_rng)
        .unwrap();
    acu.transport().shuffle_to(pd_driver.transport());
    assert!(pd_driver.poll_once_with_rng(&mut pd_rng).unwrap());
    pd_driver.transport().shuffle_to(acu.transport());
    acu.receive_secure_ccrypt(&mut state).unwrap();

    let failure = PacketBuilder {
        addr: Address::reply(0x05).unwrap(),
        ctrl: ControlByte::new(state.next_sqn, CtrlFlags::crc() | CtrlFlags::scb()),
        scb: Some(Scb::new(ScsType::Scs14, [0xff])),
        code: ReplyCode::RMacI.as_byte(),
        data: RMacI { r_mac_i: [0; 16] }.encode().unwrap(),
    }
    .encode()
    .unwrap();
    acu.transport().feed(&failure);

    let err = acu.receive_secure_rmac_i(&mut state).unwrap_err();

    assert!(matches!(
        err,
        Error::SecureSession(SecureSessionError::BadCryptogram)
    ));
    assert!(!state.is_secure());
}
#[test]
fn exchange_uses_mac_only_secure_frames_after_handshake() {
    let mut acu = Acu::new(LoopbackPdTransport::new(), MockClock::new());
    acu.retry = RetryConfig {
        max_retries: 0,
        overall_budget_ms: 0,
    };
    let mut state = PdState::default();
    let mut keys = FixedAcuKeys(Some(scbk_d_material()));
    let mut rng = FixedRandom([0xA1; 8]);

    acu.establish_secure_channel(0x05, &mut state, &mut keys, &mut rng)
        .unwrap();

    let outcome = acu
        .exchange(0x05, &mut state, &Command::Poll(Poll))
        .unwrap();
    assert_eq!(
        outcome,
        ExchangeOutcome::Reply(Reply::Ack(Ack))
    );
    assert_eq!(state.next_sqn.value(), 3);

    let (parsed, _) = ParsedPacket::parse(acu.transport().last_write()).unwrap();
    let scb = parsed.scb.unwrap();
    assert_eq!(scb.ty, ScsType::Scs15);
    assert!(parsed.data.is_empty());
    assert!(parsed.mac.is_some());
}
#[test]
fn exchange_encrypts_secure_data_frames_after_handshake() {
    let mut acu = Acu::new(LoopbackPdTransport::new(), MockClock::new());
    acu.retry = RetryConfig {
        max_retries: 0,
        overall_budget_ms: 0,
    };
    let mut state = PdState::default();
    let mut keys = FixedAcuKeys(Some(scbk_d_material()));
    let mut rng = FixedRandom([0xA1; 8]);

    acu.establish_secure_channel(0x05, &mut state, &mut keys, &mut rng)
        .unwrap();

    let outcome = acu
        .exchange(0x05, &mut state, &Command::Id(Id::standard()))
        .unwrap();
    assert_eq!(
        outcome,
        ExchangeOutcome::Reply(Reply::PdId(PdId {
            vendor_oui: [0x00, 0x06, 0x8E],
            model: 0x12,
            version: 0x34,
            serial: 0xCAFE_BABE,
            firmware: [1, 2, 3],
        }))
    );
    assert_eq!(state.next_sqn.value(), 3);

    let (parsed, _) = ParsedPacket::parse(acu.transport().last_write()).unwrap();
    let scb = parsed.scb.unwrap();
    assert_eq!(scb.ty, ScsType::Scs17);
    assert_ne!(parsed.data, &[0x00]);
    assert!(parsed.mac.is_some());

    let (parsed, _) = ParsedPacket::parse(acu.transport().last_reply()).unwrap();
    let scb = parsed.scb.unwrap();
    assert_eq!(scb.ty, ScsType::Scs18);
    assert_ne!(
        parsed.data,
        &[
            0x00, 0x06, 0x8E, 0x12, 0x34, 0xBE, 0xBA, 0xFE, 0xCA, 0x01, 0x02, 0x03,
        ]
    );
    assert!(parsed.mac.is_some());
}
#[test]
fn secure_exchange_retries_reuse_sealed_frame() {
    let mut acu = Acu::new(LoopbackPdTransport::new(), MockClock::new());
    acu.retry = RetryConfig {
        max_retries: 1,
        overall_budget_ms: 0,
    };
    let mut state = PdState::default();
    let mut keys = FixedAcuKeys(Some(scbk_d_material()));
    let mut rng = FixedRandom([0xA1; 8]);

    acu.establish_secure_channel(0x05, &mut state, &mut keys, &mut rng)
        .unwrap();

    let first_exchange_write = acu.transport().writes.len();
    acu.transport().drop_next_reply();
    let outcome = acu
        .exchange(0x05, &mut state, &Command::Poll(Poll))
        .unwrap();

    assert_eq!(
        outcome,
        ExchangeOutcome::Reply(Reply::Ack(Ack))
    );
    assert_eq!(state.next_sqn.value(), 3);
    let writes = &acu.transport().writes;
    assert_eq!(
        writes[first_exchange_write],
        writes[first_exchange_write + 1]
    );

    let outcome = acu
        .exchange(0x05, &mut state, &Command::Id(Id::standard()))
        .unwrap();

    assert!(matches!(outcome, ExchangeOutcome::Reply(Reply::PdId(_))));
    assert_eq!(state.next_sqn.value(), 1);
}
#[test]
fn secure_exchange_timeout_resets_secure_state() {
    let mut state = establish_secure_state();
    let mut acu = Acu::new(SilentTransport::new(), MockClock::new());
    acu.retry = RetryConfig {
        max_retries: 0,
        overall_budget_ms: 0,
    };

    let outcome = acu
        .exchange(0x05, &mut state, &Command::Poll(Poll))
        .unwrap();

    assert_eq!(outcome, ExchangeOutcome::Timeout);
    assert!(!state.is_secure());
}
#[test]
fn secure_exchange_offline_after_send_resets_secure_state() {
    let mut state = establish_secure_state();
    let clock = MockClock::new();
    let transport =
        SilentTransport::advancing(clock.clone(), OFFLINE_THRESHOLD_MS as u64);
    let mut acu = Acu::new(transport, clock);
    acu.retry = RetryConfig {
        max_retries: 0,
        overall_budget_ms: 0,
    };

    let outcome = acu
        .exchange(0x05, &mut state, &Command::Poll(Poll))
        .unwrap();

    assert_eq!(outcome, ExchangeOutcome::Offline);
    assert!(!state.is_secure());
}
#[test]
fn exchange_rejects_plaintext_reply_after_handshake() {
    let mut state = establish_secure_state();
    let mut transport = VecTransport::new();
    let plaintext_reply = PacketBuilder::plain(
        Address::reply(0x05).unwrap(),
        ControlByte::new(state.next_sqn, CtrlFlags::crc()),
        ReplyCode::Ack.as_byte(),
        Vec::new(),
    )
    .encode()
    .unwrap();
    transport.feed(&plaintext_reply);
    let mut acu = Acu::new(transport, MockClock::new());
    acu.retry = RetryConfig {
        max_retries: 0,
        overall_budget_ms: 0,
    };

    let err = acu
        .exchange(0x05, &mut state, &Command::Poll(Poll))
        .unwrap_err();

    assert!(matches!(
        err,
        Error::SecureSession(SecureSessionError::NotSecure)
    ));
    assert!(!state.is_secure());
}
#[test]
fn exchange_rejects_wrong_direction_secure_reply_after_handshake() {
    let mut state = establish_secure_state();
    let mut transport = VecTransport::new();
    let wrong_direction_reply = PacketBuilder {
        addr: Address::reply(0x05).unwrap(),
        ctrl: ControlByte::new(state.next_sqn, CtrlFlags::crc() | CtrlFlags::scb()),
        scb: Some(Scb::new(ScsType::Scs15, [])),
        code: ReplyCode::Ack.as_byte(),
        data: Vec::new(),
    }
    .encode_with_mac(|_| [0u8; MAC_LEN])
    .unwrap();
    transport.feed(&wrong_direction_reply);
    let mut acu = Acu::new(transport, MockClock::new());
    acu.retry = RetryConfig {
        max_retries: 0,
        overall_budget_ms: 0,
    };

    let err = acu
        .exchange(0x05, &mut state, &Command::Poll(Poll))
        .unwrap_err();

    assert!(matches!(err, Error::BadSecurityBlock(0x15)));
    assert!(!state.is_secure());
}
