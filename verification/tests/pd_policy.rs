//! Repetition, addressing and handshake policy of the PD driver, and both drivers together.

use osdp::clock::Clock;
use osdp::command::{Chlng, Command, CommandCode, Id, KeySet, Poll, RawCommand, SCrypt};
use osdp::driver::acu::{
    Acu, AcuSecureKey, AcuSecureKeyMaterial, AcuSecureKeyProvider, ExchangeOutcome, PdState,
};
use osdp::driver::pd::state::is_secure_session_established;
use osdp::driver::pd::{
    Pd, PdHandler, PdSecureConfig, PdSecureKey, PdSecureKeyProvider, PdSecureState,
};
use osdp::error::{Error, SecureSessionError};
use osdp::packet::{
    Address, ControlByte, CtrlFlags, PacketBuilder, ParsedPacket, Scb, ScsType, Sqn,
};
use osdp::reply::{Ack, Nak, NakErrorCode, PdId, RawReply, Reply, ReplyCode};
use osdp::secure::frame::{seal, Direction};
use osdp::secure::{Disconnected, Secure, SecureRandom, Session, SCBK_D};
use osdp::transport::{Transport, VecTransport};
use std::cell::{Cell, RefCell};
use std::collections::VecDeque;
use std::rc::Rc;

const RND_A: [u8; 8] = [0xa1; 8];
const RND_B: [u8; 8] = [0xb2; 8];
const CUID: [u8; 8] = [0xc1; 8];

struct StoppedClock;

impl Clock for StoppedClock {
    fn now_ms(&self) -> u64 {
        0
    }
}

/// Handler that counts what it is asked and answers as it is told.
struct Probe {
    commands: Rc<RefCell<Vec<Command>>>,
    keys: Rc<Cell<usize>>,
    key: Option<[u8; 16]>,
    random: Option<[u8; 8]>,
    reply: Reply,
}

impl Probe {
    fn new() -> Self {
        Probe {
            commands: Rc::new(RefCell::new(Vec::new())),
            keys: Rc::new(Cell::new(0)),
            key: Some(SCBK_D),
            random: Some(RND_B),
            reply: Reply::Ack(Ack),
        }
    }
}

impl PdHandler for Probe {
    fn on_command(&mut self, command: &Command) -> Reply {
        self.commands.borrow_mut().push(command.clone());
        self.reply.clone()
    }

    fn secure_channel_key(&mut self, _selection: PdSecureKey) -> Option<[u8; 16]> {
        self.keys.set(self.keys.get() + 1);
        self.key
    }

    fn secure_channel_random(&mut self) -> Option<[u8; 8]> {
        self.random
    }
}

/// Handler without keys of its own.
struct Plain;

impl PdHandler for Plain {
    fn on_command(&mut self, _command: &Command) -> Reply {
        Reply::Ack(Ack)
    }
}

struct FixedRandom(Result<[u8; 8], Error>);

impl SecureRandom for FixedRandom {
    fn fill_secure_random(&mut self, out: &mut [u8]) -> Result<(), Error> {
        out.copy_from_slice(&self.0?);
        Ok(())
    }
}

/// Transport that refuses to write.
struct Mute {
    incoming: VecDeque<u8>,
}

impl Transport for Mute {
    fn write_all(&mut self, _bytes: &[u8]) -> Result<(), Error> {
        Err(Error::Io)
    }

    fn read(&mut self, buf: &mut [u8]) -> Result<usize, Error> {
        if self.incoming.is_empty() {
            return Err(Error::Io);
        }
        let n = buf.len().min(self.incoming.len());
        for slot in buf.iter_mut().take(n) {
            *slot = self.incoming.pop_front().unwrap();
        }
        Ok(n)
    }
}

fn sqn(v: u8) -> Sqn {
    Sqn::new(v).unwrap()
}

fn frame(addr: u8, n: u8, code: CommandCode, data: Vec<u8>) -> Vec<u8> {
    PacketBuilder::plain(
        Address::pd(addr).unwrap(),
        ControlByte::new(sqn(n), CtrlFlags::crc()),
        code.as_byte(),
        data,
    )
    .encode()
    .unwrap()
}

fn block_frame(n: u8, scb: Scb, command: &Command) -> Vec<u8> {
    PacketBuilder {
        addr: Address::pd(5).unwrap(),
        ctrl: ControlByte::new(sqn(n), CtrlFlags::crc() | CtrlFlags::scb()),
        scb: Some(scb),
        code: command.code().as_byte(),
        data: command.encode_data().unwrap(),
    }
    .encode()
    .unwrap()
}

fn challenge(n: u8) -> Vec<u8> {
    block_frame(
        n,
        Scb::new(ScsType::Scs11, [0]),
        &Command::Chlng(Chlng::new(RND_A)),
    )
}

fn server_cryptogram() -> [u8; 16] {
    acu_session().server_cryptogram()
}

fn acu_session() -> Session<osdp::secure::Cryptogrammed> {
    let ccrypt = Session::<Disconnected>::new(SCBK_D)
        .receive_challenge(RND_A, CUID, RND_B)
        .ccrypt();
    Session::<Disconnected>::new(SCBK_D)
        .challenge(RND_A)
        .receive_ccrypt(&ccrypt)
        .unwrap()
}

fn scrypt(n: u8, selector: u8, cryptogram: [u8; 16]) -> Vec<u8> {
    block_frame(
        n,
        Scb::new(ScsType::Scs13, [selector]),
        &Command::SCrypt(SCrypt::new(cryptogram)),
    )
}

fn plain_pd(handler: Probe) -> Pd<VecTransport, StoppedClock, Probe> {
    Pd::new(VecTransport::new(), StoppedClock, 5, handler)
}

fn secure_pd(handler: Probe) -> Pd<VecTransport, StoppedClock, Probe> {
    plain_pd(handler).with_secure_channel(PdSecureConfig { cuid: CUID })
}

fn out<H: PdHandler, K: PdSecureKeyProvider>(
    pd: &mut Pd<VecTransport, StoppedClock, H, K>,
) -> Vec<u8> {
    pd.transport().outgoing.drain(..).collect()
}

/// PD with an established session, and the ACU's end of it.
fn established(handler: Probe) -> (Pd<VecTransport, StoppedClock, Probe>, Session<Secure>) {
    let mut pd = secure_pd(handler);
    pd.transport().feed(&challenge(1));
    assert!(pd.poll_once().unwrap());
    pd.transport().feed(&scrypt(2, 0, server_cryptogram()));
    assert!(pd.poll_once().unwrap());
    out(&mut pd);
    assert!(is_secure_session_established(&pd.secure_state));
    let acu = acu_session();
    let rmac = acu.initial_rmac();
    (pd, acu.confirm_rmac_i(&rmac).unwrap())
}

#[test]
fn repeated_number_gets_the_last_reply_again() {
    let probe = Probe::new();
    let commands = probe.commands.clone();
    let mut pd = plain_pd(probe);
    pd.transport().feed(&frame(5, 1, CommandCode::Poll, Vec::new()));
    assert!(pd.poll_once().unwrap());
    let first = out(&mut pd);
    assert_eq!(first, [0x53, 0x85, 0x08, 0x00, 0x05, 0x40, 0x3f, 0xbc]);
    // The same number asks for a repetition, whatever the command is.
    pd.transport().feed(&frame(5, 1, CommandCode::Id, vec![0]));
    assert!(pd.poll_once().unwrap());
    assert_eq!(out(&mut pd), first);
    assert_eq!(commands.borrow().len(), 1);
    pd.transport().feed(&frame(5, 2, CommandCode::Id, vec![0]));
    assert!(pd.poll_once().unwrap());
    assert_eq!(
        *commands.borrow(),
        [Command::Poll(Poll), Command::Id(Id::standard())]
    );
}

#[test]
fn frames_for_others_are_skipped() {
    let probe = Probe::new();
    let commands = probe.commands.clone();
    let mut pd = plain_pd(probe);
    pd.transport().feed(&[0x00, 0x01]);
    pd.transport().feed(&frame(6, 1, CommandCode::Id, vec![0]));
    pd.transport().feed(&frame(5, 1, CommandCode::Poll, Vec::new()));
    pd.transport().feed(&[0xee]);
    assert!(pd.poll_once().unwrap());
    assert_eq!(*commands.borrow(), [Command::Poll(Poll)]);
    assert_eq!(pd.rx_buf, [0xee]);
}

#[test]
fn poll_drains_the_transport() {
    let mut pd = plain_pd(Probe::new());
    let foreign = frame(6, 1, CommandCode::Poll, Vec::new());
    for _ in 0..8 {
        pd.transport().feed(&foreign);
    }
    assert_eq!(foreign.len() * 8, 64);
    pd.transport().feed(&frame(5, 1, CommandCode::Poll, Vec::new()));
    assert_eq!(pd.poll_once(), Ok(true));
    assert_eq!(
        out(&mut pd),
        [0x53, 0x85, 0x08, 0x00, 0x05, 0x40, 0x3f, 0xbc]
    );
    assert_eq!(pd.poll_once(), Ok(false));
    assert!(out(&mut pd).is_empty());
}

#[test]
fn long_command_is_answered_by_one_poll() {
    let probe = Probe::new();
    let commands = probe.commands.clone();
    let mut pd = plain_pd(probe);
    let data = vec![0x5a; 1000];
    pd.transport()
        .feed(&frame(5, 1, CommandCode::Text, data.clone()));
    assert_eq!(pd.poll_once(), Ok(true));
    assert_eq!(
        *commands.borrow(),
        [Command::Raw(RawCommand {
            code: CommandCode::Text,
            data
        })]
    );
    assert_eq!(out(&mut pd)[5], 0x40);
}

#[test]
fn long_command_may_come_in_two_polls() {
    let mut pd = plain_pd(Probe::new());
    let command = frame(5, 1, CommandCode::Text, vec![0x5a; 200]);
    pd.transport().feed(&command[..150]);
    assert_eq!(pd.poll_once(), Ok(false));
    assert_eq!(pd.rx_buf, command[..150]);
    assert!(pd.transport().incoming.is_empty());
    pd.transport().feed(&command[150..]);
    assert_eq!(pd.poll_once(), Ok(true));
    assert_eq!(out(&mut pd)[5], 0x40);
}

#[test]
fn commands_behind_the_first_are_left_for_later_polls() {
    let probe = Probe::new();
    let commands = probe.commands.clone();
    let mut pd = plain_pd(probe);
    for n in 1..4 {
        pd.transport().feed(&frame(5, n, CommandCode::Poll, Vec::new()));
    }
    for n in 1..4 {
        assert_eq!(pd.poll_once(), Ok(true));
        assert_eq!(commands.borrow().len(), n);
    }
    assert_eq!(pd.poll_once(), Ok(false));
}

#[test]
fn only_a_challenge_that_is_taken_up_ends_a_session() {
    let (mut pd, _) = established(Probe::new());
    // A proof that nothing asked for.
    pd.transport().feed(&scrypt(3, 0, server_cryptogram()));
    assert_eq!(
        pd.poll_once(),
        Err(Error::SecureSession(SecureSessionError::NotSecure))
    );
    assert!(is_secure_session_established(&pd.secure_state));
    // A challenge that selects no key.
    pd.transport().feed(&block_frame(
        3,
        Scb::new(ScsType::Scs11, [9]),
        &Command::Chlng(Chlng::new(RND_A)),
    ));
    assert!(matches!(
        pd.poll_once(),
        Err(Error::MalformedPayload { code: 0x76, .. })
    ));
    assert!(is_secure_session_established(&pd.secure_state));
    // A challenge for which there is no key.
    pd.handler.key = None;
    pd.transport().feed(&challenge(3));
    assert!(pd.poll_once().is_err());
    assert!(is_secure_session_established(&pd.secure_state));
    // A challenge that is taken up.
    pd.handler.key = Some(SCBK_D);
    pd.transport().feed(&challenge(3));
    assert_eq!(pd.poll_once(), Ok(true));
    assert!(!is_secure_session_established(&pd.secure_state));
    // A proof that is accepted.
    pd.transport().feed(&scrypt(1, 0, server_cryptogram()));
    assert_eq!(pd.poll_once(), Ok(true));
    assert!(is_secure_session_established(&pd.secure_state));
}

#[test]
fn handler_is_asked_even_where_it_denies() {
    let mut probe = Probe::new();
    probe.key = None;
    let keys = probe.keys.clone();
    let commands = probe.commands.clone();
    let mut pd = secure_pd(probe);
    pd.transport().feed(&challenge(1));
    assert_eq!(
        pd.poll_once(),
        Err(Error::MalformedPayload {
            code: 0x76,
            reason: "secure-channel key unavailable"
        })
    );
    assert_eq!(keys.get(), 1);
    assert!(commands.borrow().is_empty());
    // With key and random challenge at hand the same challenge is answered.
    pd.handler.key = Some(SCBK_D);
    pd.transport().feed(&challenge(1));
    assert_eq!(pd.poll_once(), Ok(true));
    assert_eq!(keys.get(), 2);
    assert!(commands.borrow().is_empty());
    assert_eq!(out(&mut pd)[1], 0x85);
}

#[test]
fn broadcasts_are_answered() {
    let mut pd = plain_pd(Probe::new());
    pd.transport()
        .feed(&frame(0x7f, 1, CommandCode::Poll, Vec::new()));
    assert!(pd.poll_once().unwrap());
    assert_eq!(out(&mut pd)[1], 0x85);
}

#[test]
fn incomplete_commands_wait_for_more() {
    let mut pd = plain_pd(Probe::new());
    let bytes = frame(5, 1, CommandCode::Poll, Vec::new());
    pd.transport().feed(&bytes[..5]);
    assert!(!pd.poll_once().unwrap());
    assert!(!pd.poll_once().unwrap());
    pd.transport().feed(&bytes[5..]);
    assert!(pd.poll_once().unwrap());
}

#[test]
fn broken_commands_are_reported() {
    let mut pd = plain_pd(Probe::new());
    let mut bytes = frame(5, 1, CommandCode::Poll, Vec::new());
    bytes[7] ^= 1;
    pd.transport().feed(&bytes);
    assert!(matches!(pd.poll_once(), Err(Error::BadCrc { .. })));

    let mut pd = plain_pd(Probe::new());
    let unknown = PacketBuilder::plain(
        Address::pd(5).unwrap(),
        ControlByte::new(sqn(1), CtrlFlags::crc()),
        0x01,
        Vec::new(),
    )
    .encode()
    .unwrap();
    pd.transport().feed(&unknown);
    assert_eq!(pd.poll_once().unwrap_err(), Error::UnknownCommand(0x01));

    let mut pd = plain_pd(Probe::new());
    pd.transport().feed(&frame(5, 1, CommandCode::Id, Vec::new()));
    assert!(matches!(
        pd.poll_once(),
        Err(Error::MalformedPayload { code: 0x61, .. })
    ));
}

#[test]
fn failed_transport_is_reported() {
    let mut pd = Pd::new(
        Mute {
            incoming: frame(5, 1, CommandCode::Poll, Vec::new()).into(),
        },
        StoppedClock,
        5,
        Plain,
    );
    assert_eq!(pd.poll_once().unwrap_err(), Error::Io);
    // The reply that did not go out is not remembered.
    assert!(pd.last_sqn.is_none());
    assert_eq!(pd.poll_once().unwrap_err(), Error::Io);
}

#[test]
fn own_address_is_checked_when_replying() {
    let mut pd = Pd::new(VecTransport::new(), StoppedClock, 0x85, Plain);
    pd.transport()
        .feed(&frame(0x7f, 1, CommandCode::Poll, Vec::new()));
    assert_eq!(pd.poll_once().unwrap_err(), Error::BadAddress(0x85));
}

#[test]
fn replies_can_have_checksums() {
    let mut pd = plain_pd(Probe::new());
    pd.use_crc = false;
    pd.transport().feed(&frame(5, 1, CommandCode::Poll, Vec::new()));
    assert!(pd.poll_once().unwrap());
    assert_eq!(out(&mut pd), [0x53, 0x85, 0x07, 0x00, 0x01, 0x40, 0xe0]);
}

#[test]
fn without_an_identity_the_challenge_is_a_command() {
    let probe = Probe::new();
    let commands = probe.commands.clone();
    let keys = probe.keys.clone();
    let mut pd = plain_pd(probe);
    pd.transport().feed(&challenge(1));
    assert!(pd.poll_once().unwrap());
    assert_eq!(*commands.borrow(), [Command::Chlng(Chlng::new(RND_A))]);
    assert_eq!(keys.get(), 0);
}

#[test]
fn challenge_needs_a_key_and_a_random_challenge() {
    let mut probe = Probe::new();
    probe.key = None;
    let mut pd = secure_pd(probe);
    pd.transport().feed(&challenge(1));
    assert_eq!(
        pd.poll_once().unwrap_err(),
        Error::MalformedPayload {
            code: 0x76,
            reason: "secure-channel key unavailable"
        }
    );

    let mut probe = Probe::new();
    probe.random = None;
    let commands = probe.commands.clone();
    let mut pd = secure_pd(probe);
    pd.transport().feed(&challenge(1));
    assert_eq!(
        pd.poll_once().unwrap_err(),
        Error::MalformedPayload {
            code: 0x76,
            reason: "secure-channel random unavailable"
        }
    );
    assert!(commands.borrow().is_empty());
    assert!(pd.last_sqn.is_none());

    // A handler that supplies neither denies the handshake.
    let mut pd = Pd::new(VecTransport::new(), StoppedClock, 5, Plain)
        .with_secure_channel(PdSecureConfig { cuid: CUID });
    pd.transport().feed(&challenge(1));
    assert!(pd.poll_once().is_err());
}

#[test]
fn random_source_takes_the_place_of_the_handler() {
    let mut probe = Probe::new();
    probe.random = None;
    let mut pd = secure_pd(probe);
    pd.transport().feed(&challenge(1));
    assert!(pd.poll_once_with_rng(&mut FixedRandom(Ok([0x77; 8]))).unwrap());
    let reply = out(&mut pd);
    let (parsed, _) = ParsedPacket::parse(&reply).unwrap();
    assert_eq!(parsed.data[8..16], [0x77; 8]);

    let mut pd = secure_pd(Probe::new());
    pd.transport().feed(&challenge(1));
    assert_eq!(
        pd.poll_once_with_rng(&mut FixedRandom(Err(Error::Io)))
            .unwrap_err(),
        Error::Io
    );
    assert!(pd.secure_state.is_none());
}

#[test]
fn key_selector_is_checked() {
    for selector in [&[][..], &[2], &[0, 0]] {
        assert_eq!(
            PdSecureKey::from_scb_data(selector).unwrap_err(),
            Error::MalformedPayload {
                code: 0x76,
                reason: "SCS handshake SEC_BLK_DATA must be exactly [0] or [1]"
            }
        );
    }
    for key in [PdSecureKey::Scbk, PdSecureKey::ScbkD] {
        assert_eq!(PdSecureKey::from_scb_data(&key.as_scb_data()).unwrap(), key);
    }
    assert_eq!(AcuSecureKey::Scbk.as_scb_data(), [1]);
    assert_eq!(AcuSecureKey::ScbkD.as_scb_data(), [0]);
    let mut pd = secure_pd(Probe::new());
    pd.transport().feed(&block_frame(
        1,
        Scb::new(ScsType::Scs11, [2]),
        &Command::Chlng(Chlng::new(RND_A)),
    ));
    assert!(matches!(
        pd.poll_once(),
        Err(Error::MalformedPayload { code: 0x76, .. })
    ));
}

#[test]
fn wrong_server_cryptogram_disconnects() {
    let probe = Probe::new();
    let commands = probe.commands.clone();
    let mut pd = secure_pd(probe);
    pd.transport().feed(&challenge(1));
    assert!(pd.poll_once().unwrap());
    pd.transport().feed(&scrypt(2, 0, [0; 16]));
    assert_eq!(
        pd.poll_once().unwrap_err(),
        Error::SecureSession(SecureSessionError::BadCryptogram)
    );
    assert!(matches!(
        pd.secure_state,
        Some(PdSecureState::Disconnected(_))
    ));
    assert!(commands.borrow().is_empty());
}

#[test]
fn change_of_key_during_the_handshake_disconnects() {
    let mut pd = secure_pd(Probe::new());
    pd.transport().feed(&challenge(1));
    assert!(pd.poll_once().unwrap());
    pd.transport().feed(&scrypt(2, 1, server_cryptogram()));
    assert_eq!(
        pd.poll_once().unwrap_err(),
        Error::SecureSession(SecureSessionError::BadCryptogram)
    );
    assert!(matches!(
        pd.secure_state,
        Some(PdSecureState::Disconnected(_))
    ));
}

#[test]
fn proof_without_a_challenge_is_a_command() {
    let probe = Probe::new();
    let commands = probe.commands.clone();
    let mut pd = secure_pd(probe);
    pd.transport().feed(&scrypt(1, 0, [3; 16]));
    assert!(pd.poll_once().unwrap());
    assert_eq!(*commands.borrow(), [Command::SCrypt(SCrypt::new([3; 16]))]);
}

#[test]
fn repeated_proof_gets_the_same_answer() {
    let mut pd = secure_pd(Probe::new());
    pd.transport().feed(&challenge(1));
    assert!(pd.poll_once().unwrap());
    out(&mut pd);
    let bytes = scrypt(2, 0, server_cryptogram());
    pd.transport().feed(&bytes);
    assert!(pd.poll_once().unwrap());
    let first = out(&mut pd);
    pd.transport().feed(&bytes);
    assert!(pd.poll_once().unwrap());
    assert_eq!(out(&mut pd), first);
    let (parsed, _) = ParsedPacket::parse(&first).unwrap();
    assert_eq!(parsed.scb.unwrap().ty, ScsType::Scs14);
    assert_eq!(parsed.scb.unwrap().data, &[1]);
}

#[test]
fn forged_command_disconnects_without_dispatch() {
    let probe = Probe::new();
    let commands = probe.commands.clone();
    let (mut pd, _) = established(probe);
    let forged = PacketBuilder {
        addr: Address::pd(5).unwrap(),
        ctrl: ControlByte::new(sqn(3), CtrlFlags::crc() | CtrlFlags::scb()),
        scb: Some(Scb::new(ScsType::Scs15, [])),
        code: CommandCode::Poll.as_byte(),
        data: Vec::new(),
    }
    .encode_with_mac(|_| [0; 4])
    .unwrap();
    pd.transport().feed(&forged);
    assert_eq!(
        pd.poll_once().unwrap_err(),
        Error::SecureSession(SecureSessionError::BadMac)
    );
    assert!(matches!(
        pd.secure_state,
        Some(PdSecureState::Disconnected(_))
    ));
    assert!(commands.borrow().is_empty());
}

#[test]
fn reply_too_long_to_be_secured_ends_the_session() {
    let mut probe = Probe::new();
    probe.reply = Reply::Raw(RawReply {
        code: ReplyCode::MfgRep,
        data: vec![0; 0xffff],
    });
    let (mut pd, mut acu) = established(probe);
    let poll = seal(
        &mut acu,
        Address::pd(5).unwrap(),
        sqn(3),
        Direction::AcuToPd,
        false,
        0x60,
        &[],
    )
    .unwrap();
    pd.transport().feed(&poll);
    assert!(matches!(
        pd.poll_once(),
        Err(Error::PayloadTooLarge { .. })
    ));
    assert!(pd.secure_state.is_none());
}

#[test]
fn new_challenge_replaces_a_session() {
    let probe = Probe::new();
    let commands = probe.commands.clone();
    let (mut pd, _) = established(probe);
    pd.transport().feed(&challenge(3));
    assert!(pd.poll_once().unwrap());
    assert!(matches!(
        pd.secure_state,
        Some(PdSecureState::Challenged { .. })
    ));
    assert!(commands.borrow().is_empty());
}

#[derive(Default)]
struct KeyStore {
    install_mode: bool,
    scbk: Option<[u8; 16]>,
}

struct StorePd(Rc<RefCell<KeyStore>>);

impl PdHandler for StorePd {
    fn on_command(&mut self, command: &Command) -> Reply {
        match command {
            Command::KeySet(keyset) if keyset.key_type == 0x01 && keyset.key.len() == 16 => {
                let mut scbk = [0u8; 16];
                scbk.copy_from_slice(&keyset.key);
                let mut store = self.0.borrow_mut();
                store.scbk = Some(scbk);
                store.install_mode = false;
                Reply::Ack(Ack)
            }
            Command::Id(_) => Reply::PdId(PdId {
                vendor_oui: [0x00, 0x06, 0x8e],
                model: 0x12,
                version: 0x34,
                serial: 0xcafe_babe,
                firmware: [1, 2, 3],
            }),
            _ => Reply::Nak(Nak::simple(NakErrorCode::UnableToProcessCommandRecord)),
        }
    }
}

struct StoreKeys(Rc<RefCell<KeyStore>>);

impl PdSecureKeyProvider for StoreKeys {
    fn secure_key_for(&mut self, selection: PdSecureKey) -> Option<[u8; 16]> {
        let store = self.0.borrow();
        match selection {
            PdSecureKey::Scbk => store.scbk,
            PdSecureKey::ScbkD if store.install_mode => Some(SCBK_D),
            PdSecureKey::ScbkD => None,
        }
    }
}

struct AcuKeys(Option<[u8; 16]>);

impl AcuSecureKeyProvider for AcuKeys {
    fn secure_key_for(&mut self, _pd_addr: u8) -> Option<AcuSecureKeyMaterial> {
        Some(match self.0 {
            Some(scbk) => AcuSecureKeyMaterial {
                selection: AcuSecureKey::Scbk,
                scbk,
            },
            None => AcuSecureKeyMaterial {
                selection: AcuSecureKey::ScbkD,
                scbk: SCBK_D,
            },
        })
    }
}

/// Transport with a PD at its other end.
struct Loopback {
    pd: Pd<VecTransport, StoppedClock, StorePd, StoreKeys>,
    writes: Vec<Vec<u8>>,
}

impl Transport for Loopback {
    fn write_all(&mut self, bytes: &[u8]) -> Result<(), Error> {
        self.writes.push(bytes.to_vec());
        self.pd.transport().feed(bytes);
        self.pd.poll_once_with_rng(&mut FixedRandom(Ok(RND_B)))?;
        Ok(())
    }

    fn read(&mut self, buf: &mut [u8]) -> Result<usize, Error> {
        let out = &mut self.pd.transport().outgoing;
        let n = buf.len().min(out.len());
        for slot in buf.iter_mut().take(n) {
            *slot = out.pop_front().unwrap();
        }
        Ok(n)
    }
}

#[test]
fn key_is_installed_and_used() {
    let store = Rc::new(RefCell::new(KeyStore {
        install_mode: true,
        scbk: None,
    }));
    let pd = Pd::new(
        VecTransport::new(),
        StoppedClock,
        5,
        StorePd(store.clone()),
    )
    .with_secure_channel_keys(PdSecureConfig { cuid: CUID }, StoreKeys(store.clone()));
    let mut acu = Acu::new(
        Loopback {
            pd,
            writes: Vec::new(),
        },
        StoppedClock,
    );
    let mut state = PdState::default();
    let mut keys = AcuKeys(None);
    let mut rng = FixedRandom(Ok(RND_A));
    acu.establish_secure_channel(5, &mut state, &mut keys, &mut rng)
        .unwrap();
    assert_eq!(state.next_sqn, sqn(2));
    let outcome = acu
        .exchange(5, &mut state, &Command::KeySet(KeySet::scbk([0x5a; 16])))
        .unwrap();
    assert_eq!(outcome, ExchangeOutcome::Reply(Reply::Ack(Ack)));
    assert_eq!(store.borrow().scbk, Some([0x5a; 16]));
    keys.0 = Some([0x5a; 16]);
    state.reset();
    let reconnect = acu.transport().writes.len();
    acu.establish_secure_channel(5, &mut state, &mut keys, &mut rng)
        .unwrap();
    assert!(state.is_secure());
    let (parsed, _) = ParsedPacket::parse(&acu.transport().writes[reconnect]).unwrap();
    assert_eq!(parsed.scb.unwrap().data, &[1]);
    let outcome = acu
        .exchange(5, &mut state, &Command::Id(Id::standard()))
        .unwrap();
    assert!(matches!(
        outcome,
        ExchangeOutcome::Reply(Reply::PdId(id)) if id.serial == 0xcafe_babe
    ));
    // The default key is no longer granted.
    state.reset();
    keys.0 = None;
    assert!(acu
        .establish_secure_channel(5, &mut state, &mut keys, &mut rng)
        .is_err());
}

#[test]
fn drivers_exchange_in_the_clear() {
    let store = Rc::new(RefCell::new(KeyStore::default()));
    let pd = Pd::new(
        VecTransport::new(),
        StoppedClock,
        5,
        StorePd(store.clone()),
    )
    .with_secure_channel_keys(PdSecureConfig { cuid: CUID }, StoreKeys(store));
    let mut acu = Acu::new(
        Loopback {
            pd,
            writes: Vec::new(),
        },
        StoppedClock,
    );
    let mut state = PdState::default();
    for expected in [1, 2, 3, 1] {
        let outcome = acu.exchange(5, &mut state, &Command::Poll(Poll)).unwrap();
        assert_eq!(
            outcome,
            ExchangeOutcome::Reply(Reply::Nak(Nak::simple(
                NakErrorCode::UnableToProcessCommandRecord
            )))
        );
        assert_eq!(state.next_sqn.value(), expected);
    }
}
