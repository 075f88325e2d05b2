//! The PD driver against an in-memory transport.

use osdp::clock::Clock;
use osdp::command::{Chlng, Command, CommandCode, Id, SCrypt};
use osdp::driver::pd::{Pd, PdHandler, PdSecureConfig, PdSecureKey};
use osdp::error::{Error, SecureSessionError};
use osdp::packet::{
    Address, ControlByte, CtrlFlags, PacketBuilder, ParsedPacket, Scb, ScsType, Sqn,
};
use osdp::reply::{Ack, CCrypt, PdId, RMacI, Reply, ReplyCode};
use osdp::secure::frame::{seal, unseal, Direction};
use osdp::secure::{Disconnected, Secure, Session, SCBK_D};
use osdp::transport::VecTransport;
use std::cell::Cell;
use std::rc::Rc;

/// Clock that shows what it is set to.
#[derive(Clone)]
struct MockClock(Rc<Cell<u64>>);

impl MockClock {
    fn new() -> Self {
        MockClock(Rc::new(Cell::new(0)))
    }
}

impl Clock for MockClock {
    fn now_ms(&self) -> u64 {
        self.0.get()
    }
}

const TEST_SCBK: [u8; 16] = [0xA5; 16];
const TEST_RND_B: [u8; 8] = [0xB2; 8];

struct PanicHandler;

impl PdHandler for PanicHandler {
    fn on_command(&mut self, _command: &Command) -> Reply {
        panic!("secure handshake must not reach PdHandler")
    }

    fn secure_channel_key(&mut self, selection: PdSecureKey) -> Option<[u8; 16]> {
        match selection {
            PdSecureKey::Scbk => Some(TEST_SCBK),
            PdSecureKey::ScbkD => Some(SCBK_D),
        }
    }

    fn secure_channel_random(&mut self) -> Option<[u8; 8]> {
        Some(TEST_RND_B)
    }
}

struct ExpectId;

impl PdHandler for ExpectId {
    fn on_command(&mut self, command: &Command) -> Reply {
        assert!(matches!(command, Command::Id(Id { reserved: 0 })));
        Reply::Ack(Ack)
    }

    fn secure_channel_key(&mut self, selection: PdSecureKey) -> Option<[u8; 16]> {
        match selection {
            PdSecureKey::Scbk => Some(TEST_SCBK),
            PdSecureKey::ScbkD => Some(SCBK_D),
        }
    }

    fn secure_channel_random(&mut self) -> Option<[u8; 8]> {
        Some(TEST_RND_B)
    }
}

struct IdReply;

impl PdHandler for IdReply {
    fn on_command(&mut self, command: &Command) -> Reply {
        assert!(matches!(command, Command::Id(Id { reserved: 0 })));
        Reply::PdId(PdId {
            vendor_oui: [0x00, 0x06, 0x8E],
            model: 0x12,
            version: 0x34,
            serial: 0xCAFE_BABE,
            firmware: [1, 2, 3],
        })
    }

    fn secure_channel_key(&mut self, selection: PdSecureKey) -> Option<[u8; 16]> {
        match selection {
            PdSecureKey::Scbk => Some(TEST_SCBK),
            PdSecureKey::ScbkD => Some(SCBK_D),
        }
    }

    fn secure_channel_random(&mut self) -> Option<[u8; 8]> {
        Some(TEST_RND_B)
    }
}

struct AlwaysAck;
impl PdHandler for AlwaysAck {
    fn on_command(&mut self, _command: &Command) -> Reply {
        Reply::Ack(Ack)
    }
    fn secure_channel_key(&mut self, selection: PdSecureKey) -> Option<[u8; 16]> {
        match selection {
            PdSecureKey::Scbk => Some(TEST_SCBK),
            PdSecureKey::ScbkD => Some(SCBK_D),
        }
    }
    fn secure_channel_random(&mut self) -> Option<[u8; 8]> {
        Some(TEST_RND_B)
    }
}

#[test]
fn dispatches_poll_to_ack() {
    let clock = MockClock::new();
    let mut transport = VecTransport::new();
    // Encode a POLL ourselves and feed it to the PD's incoming queue.
    let bytes = PacketBuilder::plain(
        Address::pd(0x05).unwrap(),
        ControlByte::new(Sqn::new(1).unwrap(), CtrlFlags::crc()),
        CommandCode::Poll.as_byte(),
        Vec::new(),
    )
    .encode()
    .unwrap();
    transport.feed(&bytes);
    let mut pd = Pd::new(transport, clock, 0x05, AlwaysAck);
    assert!(pd.poll_once().unwrap());
    let reply_bytes: Vec<u8> = pd.transport().outgoing.drain(..).collect();
    let (parsed, _) = ParsedPacket::parse(&reply_bytes).unwrap();
    assert_eq!(parsed.code, 0x40);
    assert!(parsed.addr.is_reply());
}
fn secure_config() -> PdSecureConfig {
    PdSecureConfig { cuid: [0xC1; 8] }
}
fn secure_command_packet(sqn: u8, scs: ScsType, command: &Command) -> Result<Vec<u8>, Error> {
    secure_command_packet_with_key(sqn, scs, PdSecureKey::Scbk, command)
}
fn secure_command_packet_with_key(
    sqn: u8,
    scs: ScsType,
    key: PdSecureKey,
    command: &Command,
) -> Result<Vec<u8>, Error> {
    PacketBuilder {
        addr: Address::pd(0x05)?,
        ctrl: ControlByte::new(Sqn::new(sqn)?, CtrlFlags::crc() | CtrlFlags::scb()),
        scb: Some(Scb::new(scs, key.as_scb_data())),
        code: command.code().as_byte(),
        data: command.encode_data()?,
    }
    .encode()
}
fn secure_pd_with_acu<H: PdHandler>(
    handler: H,
) -> (Pd<VecTransport, MockClock, H>, Session<Secure>) {
    let config = secure_config();
    let rnd_a = [0xA1; 8];
    let acu = Session::<Disconnected>::new(TEST_SCBK).challenge(rnd_a);
    let mut transport = VecTransport::new();
    transport.feed(
        &secure_command_packet(1, ScsType::Scs11, &Command::Chlng(Chlng::new(rnd_a))).unwrap(),
    );
    let mut pd =
        Pd::new(transport, MockClock::new(), 0x05, handler).with_secure_channel(config);
    assert!(pd.poll_once().unwrap());
    let ccrypt_reply: Vec<u8> = pd.transport().outgoing.drain(..).collect();
    let (parsed_ccrypt, _) = ParsedPacket::parse(&ccrypt_reply).unwrap();
    let ccrypt = CCrypt::decode(parsed_ccrypt.data).unwrap();
    let acu = acu.receive_ccrypt(&ccrypt).unwrap();

    let scrypt_packet = secure_command_packet(
        2,
        ScsType::Scs13,
        &Command::SCrypt(SCrypt::new(acu.server_cryptogram())),
    )
    .unwrap();
    pd.transport().feed(&scrypt_packet);
    assert!(pd.poll_once().unwrap());
    pd.transport().outgoing.clear();
    let rmac_i = acu.initial_rmac();
    let acu = acu.confirm_rmac_i(&rmac_i).unwrap();
    (pd, acu)
}
struct RecordingHandler {
    called: Rc<Cell<bool>>,
}
impl PdHandler for RecordingHandler {
    fn on_command(&mut self, _command: &Command) -> Reply {
        self.called.set(true);
        Reply::Ack(Ack)
    }

    fn secure_channel_key(&mut self, selection: PdSecureKey) -> Option<[u8; 16]> {
        match selection {
            PdSecureKey::Scbk => Some(TEST_SCBK),
            PdSecureKey::ScbkD => Some(SCBK_D),
        }
    }

    fn secure_channel_random(&mut self) -> Option<[u8; 8]> {
        Some(TEST_RND_B)
    }
}
#[test]
fn secure_challenge_replies_with_ccrypt() {
    let config = secure_config();
    let rnd_a = [0xA1; 8];
    let bytes =
        secure_command_packet(1, ScsType::Scs11, &Command::Chlng(Chlng::new(rnd_a))).unwrap();
    let mut transport = VecTransport::new();
    transport.feed(&bytes);
    let mut pd =
        Pd::new(transport, MockClock::new(), 0x05, AlwaysAck).with_secure_channel(config);

    assert!(pd.poll_once().unwrap());
    let reply_bytes: Vec<u8> = pd.transport().outgoing.drain(..).collect();
    let (parsed, _) = ParsedPacket::parse(&reply_bytes).unwrap();
    assert_eq!(parsed.scb.unwrap().ty, ScsType::Scs12);
    assert_eq!(parsed.scb.unwrap().data, &[1]);
    assert_eq!(parsed.code, 0x76);

    let ccrypt = CCrypt::decode(parsed.data).unwrap();
    let expected = Session::<Disconnected>::new(TEST_SCBK)
        .receive_challenge(rnd_a, config.cuid, TEST_RND_B)
        .ccrypt();
    assert_eq!(ccrypt, expected);
}
#[test]
fn secure_challenge_can_select_default_scbk() {
    let config = secure_config();
    let rnd_a = [0xA1; 8];
    let bytes = secure_command_packet_with_key(
        1,
        ScsType::Scs11,
        PdSecureKey::ScbkD,
        &Command::Chlng(Chlng::new(rnd_a)),
    )
    .unwrap();
    let mut transport = VecTransport::new();
    transport.feed(&bytes);
    let mut pd =
        Pd::new(transport, MockClock::new(), 0x05, AlwaysAck).with_secure_channel(config);

    assert!(pd.poll_once().unwrap());
    let reply_bytes: Vec<u8> = pd.transport().outgoing.drain(..).collect();
    let (parsed, _) = ParsedPacket::parse(&reply_bytes).unwrap();
    assert_eq!(parsed.scb.unwrap().ty, ScsType::Scs12);
    assert_eq!(parsed.scb.unwrap().data, &[0]);

    let ccrypt = CCrypt::decode(parsed.data).unwrap();
    let expected = Session::<Disconnected>::new(SCBK_D)
        .receive_challenge(rnd_a, config.cuid, TEST_RND_B)
        .ccrypt();
    assert_eq!(ccrypt, expected);
}
#[test]
fn secure_scrypt_replies_with_rmac_i() {
    let config = secure_config();
    let rnd_a = [0xA1; 8];
    let acu = Session::<Disconnected>::new(TEST_SCBK).challenge(rnd_a);

    let chlng =
        secure_command_packet(1, ScsType::Scs11, &Command::Chlng(Chlng::new(rnd_a))).unwrap();
    let mut transport = VecTransport::new();
    transport.feed(&chlng);
    let mut pd =
        Pd::new(transport, MockClock::new(), 0x05, AlwaysAck).with_secure_channel(config);
    assert!(pd.poll_once().unwrap());
    let ccrypt_reply: Vec<u8> = pd.transport().outgoing.drain(..).collect();
    let (parsed_ccrypt, _) = ParsedPacket::parse(&ccrypt_reply).unwrap();
    let ccrypt = CCrypt::decode(parsed_ccrypt.data).unwrap();
    let acu = acu.receive_ccrypt(&ccrypt).unwrap();

    let scrypt = SCrypt::new(acu.server_cryptogram());
    let scrypt_packet =
        secure_command_packet(2, ScsType::Scs13, &Command::SCrypt(scrypt)).unwrap();
    pd.transport().feed(&scrypt_packet);
    assert!(pd.poll_once().unwrap());

    let rmac_reply: Vec<u8> = pd.transport().outgoing.drain(..).collect();
    let (parsed_rmac, _) = ParsedPacket::parse(&rmac_reply).unwrap();
    assert_eq!(parsed_rmac.scb.unwrap().ty, ScsType::Scs14);
    assert_eq!(parsed_rmac.scb.unwrap().data, &[1]);
    assert_eq!(parsed_rmac.code, 0x78);

    let rmac = RMacI::decode(parsed_rmac.data).unwrap();
    assert_eq!(rmac.r_mac_i, acu.initial_rmac());
}
#[test]
fn secure_handshake_bypasses_pdhandler() {
    let config = secure_config();
    let bytes =
        secure_command_packet(1, ScsType::Scs11, &Command::Chlng(Chlng::new([0xA1; 8])))
            .unwrap();
    let mut transport = VecTransport::new();
    transport.feed(&bytes);
    let mut pd =
        Pd::new(transport, MockClock::new(), 0x05, PanicHandler).with_secure_channel(config);

    assert!(pd.poll_once().unwrap());
}
#[test]
fn secure_encrypted_command_is_unsealed_before_dispatch() {
    let config = secure_config();
    let rnd_a = [0xA1; 8];
    let acu = Session::<Disconnected>::new(TEST_SCBK).challenge(rnd_a);
    let mut transport = VecTransport::new();
    transport.feed(
        &secure_command_packet(1, ScsType::Scs11, &Command::Chlng(Chlng::new(rnd_a))).unwrap(),
    );
    let mut pd =
        Pd::new(transport, MockClock::new(), 0x05, ExpectId).with_secure_channel(config);
    assert!(pd.poll_once().unwrap());
    let ccrypt_reply: Vec<u8> = pd.transport().outgoing.drain(..).collect();
    let (parsed_ccrypt, _) = ParsedPacket::parse(&ccrypt_reply).unwrap();
    let ccrypt = CCrypt::decode(parsed_ccrypt.data).unwrap();
    let acu = acu.receive_ccrypt(&ccrypt).unwrap();

    let scrypt_packet = secure_command_packet(
        2,
        ScsType::Scs13,
        &Command::SCrypt(SCrypt::new(acu.server_cryptogram())),
    )
    .unwrap();
    pd.transport().feed(&scrypt_packet);
    assert!(pd.poll_once().unwrap());
    pd.transport().outgoing.clear();
    let rmac_i = acu.initial_rmac();
    let mut acu = acu.confirm_rmac_i(&rmac_i).unwrap();

    let secure_id = seal(
        &mut acu,
        Address::pd(0x05).unwrap(),
        Sqn::new(3).unwrap(),
        Direction::AcuToPd,
        true,
        CommandCode::Id.as_byte(),
        &Id::standard().encode().unwrap(),
    )
    .unwrap();
    pd.transport().feed(&secure_id);

    assert!(pd.poll_once().unwrap());
    let reply_bytes: Vec<u8> = pd.transport().outgoing.drain(..).collect();
    let (parsed_reply, _) = ParsedPacket::parse(&reply_bytes).unwrap();
    assert_eq!(parsed_reply.scb.unwrap().ty, ScsType::Scs16);
    let (_acu, plaintext) = unseal(acu, &parsed_reply, &reply_bytes).unwrap();
    assert!(plaintext.is_empty());
    let reply =
        Reply::decode(ReplyCode::from_byte(parsed_reply.code).unwrap(), &plaintext).unwrap();
    assert!(matches!(reply, Reply::Ack(_)));
}
#[test]
fn secure_reply_data_is_encrypted_and_mac_protected() {
    let config = secure_config();
    let rnd_a = [0xA1; 8];
    let acu = Session::<Disconnected>::new(TEST_SCBK).challenge(rnd_a);
    let mut transport = VecTransport::new();
    transport.feed(
        &secure_command_packet(1, ScsType::Scs11, &Command::Chlng(Chlng::new(rnd_a))).unwrap(),
    );
    let mut pd =
        Pd::new(transport, MockClock::new(), 0x05, IdReply).with_secure_channel(config);
    assert!(pd.poll_once().unwrap());
    let ccrypt_reply: Vec<u8> = pd.transport().outgoing.drain(..).collect();
    let (parsed_ccrypt, _) = ParsedPacket::parse(&ccrypt_reply).unwrap();
    let ccrypt = CCrypt::decode(parsed_ccrypt.data).unwrap();
    let acu = acu.receive_ccrypt(&ccrypt).unwrap();

    let scrypt_packet = secure_command_packet(
        2,
        ScsType::Scs13,
        &Command::SCrypt(SCrypt::new(acu.server_cryptogram())),
    )
    .unwrap();
    pd.transport().feed(&scrypt_packet);
    assert!(pd.poll_once().unwrap());
    pd.transport().outgoing.clear();
    let rmac_i = acu.initial_rmac();
    let mut acu: Session<Secure> = acu.confirm_rmac_i(&rmac_i).unwrap();

    let secure_id = seal(
        &mut acu,
        Address::pd(0x05).unwrap(),
        Sqn::new(3).unwrap(),
        Direction::AcuToPd,
        true,
        CommandCode::Id.as_byte(),
        &Id::standard().encode().unwrap(),
    )
    .unwrap();
    pd.transport().feed(&secure_id);
    assert!(pd.poll_once().unwrap());

    let reply_bytes: Vec<u8> = pd.transport().outgoing.drain(..).collect();
    let (parsed_reply, _) = ParsedPacket::parse(&reply_bytes).unwrap();
    assert_eq!(parsed_reply.scb.unwrap().ty, ScsType::Scs18);
    let expected_plaintext = PdId {
        vendor_oui: [0x00, 0x06, 0x8E],
        model: 0x12,
        version: 0x34,
        serial: 0xCAFE_BABE,
        firmware: [1, 2, 3],
    }
    .encode()
    .unwrap();
    assert_ne!(parsed_reply.data, expected_plaintext.as_slice());

    let (acu, plaintext) = unseal(acu, &parsed_reply, &reply_bytes).unwrap();
    let reply =
        Reply::decode(ReplyCode::from_byte(parsed_reply.code).unwrap(), &plaintext).unwrap();
    assert!(matches!(
        reply,
        Reply::PdId(PdId {
            vendor_oui: [0x00, 0x06, 0x8E],
            serial: 0xCAFE_BABE,
            ..
        })
    ));
    let _ = acu;
}
#[test]
fn secure_session_rejects_plaintext_command_without_dispatch() {
    let called = Rc::new(Cell::new(false));
    let (mut pd, _acu) = secure_pd_with_acu(RecordingHandler {
        called: called.clone(),
    });
    let plaintext_poll = PacketBuilder::plain(
        Address::pd(0x05).unwrap(),
        ControlByte::new(Sqn::new(3).unwrap(), CtrlFlags::crc()),
        CommandCode::Poll.as_byte(),
        Vec::new(),
    )
    .encode()
    .unwrap();
    pd.transport().feed(&plaintext_poll);

    let err = pd.poll_once().unwrap_err();
    assert!(matches!(
        err,
        Error::SecureSession(SecureSessionError::NotSecure)
    ));
    assert!(!called.get());
}
#[test]
fn secure_session_rejects_reply_direction_scb_without_dispatch() {
    let called = Rc::new(Cell::new(false));
    let (mut pd, mut acu) = secure_pd_with_acu(RecordingHandler {
        called: called.clone(),
    });
    let wrong_direction_poll = seal(
        &mut acu,
        Address::pd(0x05).unwrap(),
        Sqn::new(3).unwrap(),
        Direction::PdToAcu,
        false,
        CommandCode::Poll.as_byte(),
        &[],
    )
    .unwrap();
    pd.transport().feed(&wrong_direction_poll);

    let err = pd.poll_once().unwrap_err();
    assert!(matches!(
        err,
        Error::SecureSession(SecureSessionError::NotSecure)
    ));
    assert!(!called.get());
}
