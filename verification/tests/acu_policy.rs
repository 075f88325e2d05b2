//! Retry, off-line, resynchronisation and handshake policy of the ACU driver.

use osdp::clock::Clock;
use osdp::command::{Command, KeySet, Poll};
use osdp::driver::acu::model::MAX_READS;
use osdp::driver::acu::steps::{
    require_scb, require_scs14_status, require_sqn, take_ccrypt, ParsedReply, Scs14Status,
};
use osdp::driver::acu::{
    judge_attempt, Acu, AcuSecureKey, AcuSecureKeyMaterial, AcuSecureKeyProvider, ExchangeOutcome,
    PdState, RetryConfig,
};
use osdp::error::{Error, SecureSessionError};
use osdp::packet::{
    Address, ControlByte, CtrlFlags, PacketBuilder, ParsedPacket, Scb, ScsType, Sqn,
};
use osdp::reply::{Ack, Busy, CCrypt, Nak, NakErrorCode, RMacI, Reply, ReplyCode};
use osdp::secure::frame::{seal, Direction};
use osdp::secure::{Disconnected, SecureRandom, Session, SCBK_D};
use osdp::transport::{Transport, VecTransport};
use osdp::{MAX_BUS_PACKET, OFFLINE_THRESHOLD_MS, REPLY_DELAY_MS};
use std::cell::Cell;
use std::collections::VecDeque;
use std::rc::Rc;

const RND_A: [u8; 8] = [0xa1; 8];
const RND_B: [u8; 8] = [0xb2; 8];

#[derive(Clone)]
struct MockClock(Rc<Cell<u64>>);

impl MockClock {
    fn new() -> Self {
        MockClock(Rc::new(Cell::new(0)))
    }
}

impl Clock for MockClock {
    fn now_ms(&self) -> u64 {
        self.0.get()
    }
}

/// Transport that answers reads from a script and lets time pass with each read.
struct Script {
    writes: Vec<Vec<u8>>,
    reads: VecDeque<Result<Vec<u8>, Error>>,
    n_reads: usize,
    write_error: Option<Error>,
    clock: MockClock,
    ms_per_read: u64,
}

impl Script {
    fn new(reads: Vec<Result<Vec<u8>, Error>>) -> Self {
        Script {
            writes: Vec::new(),
            reads: reads.into(),
            n_reads: 0,
            write_error: None,
            clock: MockClock::new(),
            ms_per_read: 0,
        }
    }
}

impl Transport for Script {
    fn write_all(&mut self, bytes: &[u8]) -> Result<(), Error> {
        if let Some(e) = self.write_error {
            return Err(e);
        }
        self.writes.push(bytes.to_vec());
        Ok(())
    }

    fn read(&mut self, buf: &mut [u8]) -> Result<usize, Error> {
        self.n_reads += 1;
        self.clock.0.set(self.clock.0.get() + self.ms_per_read);
        match self.reads.pop_front() {
            None => Ok(0),
            Some(Err(e)) => Err(e),
            Some(Ok(bytes)) => {
                buf[..bytes.len()].copy_from_slice(&bytes);
                Ok(bytes.len())
            }
        }
    }
}

struct FixedKeys(Option<AcuSecureKeyMaterial>);

impl AcuSecureKeyProvider for FixedKeys {
    fn secure_key_for(&mut self, pd_addr: u8) -> Option<AcuSecureKeyMaterial> {
        assert_eq!(pd_addr, 5);
        self.0
    }
}

struct FixedRandom(Result<[u8; 8], Error>);

impl SecureRandom for FixedRandom {
    fn fill_secure_random(&mut self, out: &mut [u8]) -> Result<(), Error> {
        out.copy_from_slice(&self.0?);
        Ok(())
    }
}

fn material(selection: AcuSecureKey) -> AcuSecureKeyMaterial {
    AcuSecureKeyMaterial {
        selection,
        scbk: SCBK_D,
    }
}

fn sqn(v: u8) -> Sqn {
    Sqn::new(v).unwrap()
}

fn reply_frame(n: u8, code: ReplyCode, data: Vec<u8>) -> Vec<u8> {
    PacketBuilder::plain(
        Address::reply(5).unwrap(),
        ControlByte::new(sqn(n), CtrlFlags::crc()),
        code.as_byte(),
        data,
    )
    .encode()
    .unwrap()
}

fn block_frame(n: u8, scb: Scb, code: ReplyCode, data: Vec<u8>) -> Vec<u8> {
    PacketBuilder {
        addr: Address::reply(5).unwrap(),
        ctrl: ControlByte::new(sqn(n), CtrlFlags::crc() | CtrlFlags::scb()),
        scb: Some(scb),
        code: code.as_byte(),
        data,
    }
    .encode()
    .unwrap()
}

fn ccrypt() -> CCrypt {
    Session::<Disconnected>::new(SCBK_D)
        .receive_challenge(RND_A, [0xc1; 8], RND_B)
        .ccrypt()
}

fn acu_with(reads: Vec<Result<Vec<u8>, Error>>) -> Acu<Script, MockClock> {
    let script = Script::new(reads);
    let clock = script.clock.clone();
    Acu::new(script, clock)
}

/// ACU that has sent SCS_11, with these reads to come.
fn challenged(reads: Vec<Result<Vec<u8>, Error>>) -> (Acu<Script, MockClock>, PdState) {
    let mut acu = acu_with(reads);
    let mut pd = PdState::default();
    acu.send_secure_challenge(
        5,
        &mut pd,
        &mut FixedKeys(Some(material(AcuSecureKey::ScbkD))),
        &mut FixedRandom(Ok(RND_A)),
    )
    .unwrap();
    (acu, pd)
}

/// ACU that has accepted SCS_12, with these reads to come.
fn cryptogrammed(reads: Vec<Result<Vec<u8>, Error>>) -> (Acu<Script, MockClock>, PdState) {
    let mut all = vec![Ok(block_frame(
        0,
        Scb::new(ScsType::Scs12, [0]),
        ReplyCode::CCrypt,
        ccrypt().encode().unwrap(),
    ))];
    all.extend(reads);
    let (mut acu, mut pd) = challenged(all);
    acu.receive_secure_ccrypt(&mut pd).unwrap();
    (acu, pd)
}

/// ACU with an established session, with these reads to come.
fn secured(reads: Vec<Result<Vec<u8>, Error>>) -> (Acu<Script, MockClock>, PdState) {
    let rmac = Session::<Disconnected>::new(SCBK_D)
        .challenge(RND_A)
        .receive_ccrypt(&ccrypt())
        .unwrap()
        .initial_rmac();
    let mut all = vec![Ok(block_frame(
        1,
        Scb::new(ScsType::Scs14, [1]),
        ReplyCode::RMacI,
        rmac.to_vec(),
    ))];
    all.extend(reads);
    let (mut acu, mut pd) = cryptogrammed(all);
    acu.receive_secure_rmac_i(&mut pd).unwrap();
    assert!(pd.is_secure());
    (acu, pd)
}

#[test]
fn silent_pd_is_asked_once_more_than_the_retries() {
    let mut acu = acu_with(Vec::new());
    acu.retry = RetryConfig {
        max_retries: 3,
        overall_budget_ms: 0,
    };
    let mut pd = PdState {
        next_sqn: sqn(2),
        ..Default::default()
    };
    let outcome = acu.exchange(5, &mut pd, &Command::Poll(Poll)).unwrap();
    assert_eq!(outcome, ExchangeOutcome::Timeout);
    assert_eq!(pd.next_sqn, sqn(2));
    let writes = &acu.transport().writes;
    assert_eq!(writes.len(), 4);
    assert!(writes.iter().all(|w| w == &writes[0]));
    assert_eq!(writes[0][4], 0x06);
    // Four reads without data end each attempt.
    assert_eq!(acu.transport().n_reads, 16);
}

#[test]
fn largest_retry_count_is_honoured() {
    let mut acu = acu_with(Vec::new());
    acu.retry = RetryConfig {
        max_retries: 255,
        overall_budget_ms: 0,
    };
    let mut pd = PdState::default();
    let outcome = acu.exchange(5, &mut pd, &Command::Poll(Poll)).unwrap();
    assert_eq!(outcome, ExchangeOutcome::Timeout);
    assert_eq!(acu.transport().writes.len(), 256);
}

#[test]
fn default_policy_is_two_retries_without_cap() {
    let retry = RetryConfig::default();
    assert_eq!(retry.max_retries, 2);
    assert_eq!(retry.overall_budget_ms, 0);
    let acu = acu_with(Vec::new());
    assert_eq!(acu.reply_delay_ms, REPLY_DELAY_MS);
    assert_eq!(acu.clock().now_ms(), 0);
}

#[test]
fn overall_budget_stops_retries() {
    let mut acu = acu_with(Vec::new());
    acu.retry = RetryConfig {
        max_retries: 10,
        overall_budget_ms: 300,
    };
    acu.transport().ms_per_read = 50;
    let mut pd = PdState::default();
    let outcome = acu.exchange(5, &mut pd, &Command::Poll(Poll)).unwrap();
    assert_eq!(outcome, ExchangeOutcome::Timeout);
    // Each attempt takes 200 ms.
    assert_eq!(acu.transport().writes.len(), 2);
}

#[test]
fn reply_delay_ends_an_attempt_early() {
    let mut acu = acu_with(Vec::new());
    acu.retry.max_retries = 0;
    acu.transport().ms_per_read = 200;
    let mut pd = PdState::default();
    acu.exchange(5, &mut pd, &Command::Poll(Poll)).unwrap();
    assert_eq!(acu.transport().n_reads, 1);
}

#[test]
fn retry_that_is_answered_succeeds() {
    let silence = || Ok(Vec::new());
    let mut acu = acu_with(vec![
        silence(),
        silence(),
        silence(),
        silence(),
        Ok(reply_frame(0, ReplyCode::Ack, Vec::new())),
    ]);
    let mut pd = PdState::default();
    let outcome = acu.exchange(5, &mut pd, &Command::Poll(Poll)).unwrap();
    assert_eq!(outcome, ExchangeOutcome::Reply(Reply::Ack(Ack)));
    assert_eq!(acu.transport().writes.len(), 2);
    assert_eq!(pd.next_sqn, sqn(1));
}

#[test]
fn offline_pd_is_left_alone() {
    let mut acu = acu_with(Vec::new());
    let mut pd = PdState::default();
    pd.mark_seen(0);
    acu.clock().0.set(OFFLINE_THRESHOLD_MS as u64);
    let outcome = acu.exchange(5, &mut pd, &Command::Poll(Poll)).unwrap();
    assert_eq!(outcome, ExchangeOutcome::Offline);
    assert!(acu.transport().writes.is_empty());
    assert_eq!(acu.transport().n_reads, 0);
    assert_eq!(pd.last_seen_ms, 0);
}

#[test]
fn offline_window_has_an_exact_edge() {
    let mut pd = PdState::default();
    assert!(!pd.is_offline(u64::MAX));
    pd.mark_seen(1000);
    assert!(!pd.is_offline(0));
    assert!(!pd.is_offline(8999));
    assert!(pd.is_offline(9000));
    pd.bump_sqn();
    assert_eq!(pd.next_sqn, sqn(1));
    assert!(pd.is_offline(9000));
    pd.reset();
    assert!(!pd.is_offline(9000));
    assert_eq!(pd.next_sqn, Sqn::ZERO);
    assert!(pd.use_crc);
}

#[test]
fn pd_found_offline_after_the_command_is_reported() {
    let mut acu = acu_with(Vec::new());
    acu.transport().ms_per_read = 8000;
    let mut pd = PdState::default();
    pd.mark_seen(0);
    let outcome = acu.exchange(5, &mut pd, &Command::Poll(Poll)).unwrap();
    assert_eq!(outcome, ExchangeOutcome::Offline);
    assert_eq!(acu.transport().writes.len(), 1);
}

#[test]
fn busy_keeps_the_number_and_counts_as_life() {
    let mut acu = acu_with(vec![Ok(reply_frame(0, ReplyCode::Busy, Vec::new()))]);
    acu.clock().0.set(77);
    let mut pd = PdState {
        next_sqn: sqn(3),
        ..Default::default()
    };
    let outcome = acu.exchange(5, &mut pd, &Command::Poll(Poll)).unwrap();
    assert_eq!(outcome, ExchangeOutcome::Busy);
    assert_eq!(pd.next_sqn, sqn(3));
    assert_eq!(pd.last_seen_ms, 77);
    assert!(pd.seen_at_least_once);
}

#[test]
fn wrong_number_changes_nothing() {
    let mut acu = acu_with(vec![Ok(reply_frame(2, ReplyCode::Ack, Vec::new()))]);
    let mut pd = PdState {
        next_sqn: sqn(1),
        ..Default::default()
    };
    assert_eq!(
        acu.exchange(5, &mut pd, &Command::Poll(Poll)).unwrap_err(),
        Error::SqnMismatch {
            expected: 1,
            got: 2
        }
    );
    assert_eq!(pd.next_sqn, sqn(1));
    assert!(!pd.seen_at_least_once);
    assert!(require_sqn(sqn(1), ReplyCode::Busy, sqn(0)).is_ok());
    assert!(require_sqn(sqn(1), ReplyCode::Ack, sqn(1)).is_ok());
}

#[test]
fn reply_is_found_behind_noise_and_damage() {
    let mut damaged = reply_frame(0, ReplyCode::Ack, Vec::new());
    damaged[6] ^= 0xff;
    let mut bytes = vec![0x00, 0x11];
    bytes.extend_from_slice(&damaged);
    bytes.extend_from_slice(&reply_frame(0, ReplyCode::Ack, Vec::new()));
    bytes.extend_from_slice(&[0x99]);
    let mut acu = acu_with(vec![Ok(bytes)]);
    let mut pd = PdState::default();
    let outcome = acu.exchange(5, &mut pd, &Command::Poll(Poll)).unwrap();
    assert_eq!(outcome, ExchangeOutcome::Reply(Reply::Ack(Ack)));
    assert_eq!(acu.rx_buf, [0x99]);
}

#[test]
fn reply_is_pieced_together() {
    let frame = reply_frame(0, ReplyCode::Nak, vec![0x03]);
    let reads = frame.iter().map(|b| Ok(vec![*b])).collect();
    let mut acu = acu_with(reads);
    let mut pd = PdState::default();
    let reply = acu.receive(&mut pd).unwrap();
    assert_eq!(
        reply,
        Reply::Nak(Nak {
            error: NakErrorCode::UnknownCommand,
            details: Vec::new()
        })
    );
    assert_eq!(pd.next_sqn, sqn(1));
}

#[test]
fn reply_may_come_in_two_calls() {
    let frame = reply_frame(0, ReplyCode::Nak, vec![0x03]);
    for split in 1..frame.len() {
        let (x, y) = frame.split_at(split);
        let mut acu = Acu::new(VecTransport::new(), MockClock::new());
        let mut pd = PdState::default();
        acu.transport().feed(x);
        assert_eq!(acu.receive(&mut pd), Err(Error::Timeout));
        assert_eq!(pd.next_sqn, sqn(0));
        assert!(!pd.seen_at_least_once);
        assert_eq!(acu.rx_buf, x);
        acu.transport().feed(y);
        let reply = acu.receive(&mut pd).unwrap();
        let mut whole = Acu::new(VecTransport::new(), MockClock::new());
        let mut other = PdState::default();
        whole.transport().feed(&frame);
        assert_eq!(reply, whole.receive(&mut other).unwrap());
        assert_eq!(pd.next_sqn, other.next_sqn);
        assert_eq!(pd.next_sqn, sqn(1));
        assert!(pd.seen_at_least_once && other.seen_at_least_once);
        assert_eq!(pd.last_seen_ms, other.last_seen_ms);
        assert!(acu.rx_buf.is_empty());
    }
}

#[test]
fn noise_does_not_outlast_the_reply_delay() {
    // Every read brings a byte, and takes 50 ms.
    let mut acu = acu_with(vec![Ok(vec![0x00]); 10_000]);
    acu.transport().ms_per_read = 50;
    let mut pd = PdState::default();
    assert_eq!(acu.receive(&mut pd), Err(Error::Timeout));
    assert_eq!(REPLY_DELAY_MS, 200);
    assert_eq!(acu.transport().n_reads, 4);
    assert_eq!(acu.rx_buf, [0x00; 4]);
    assert_eq!(pd.next_sqn, sqn(0));
    assert!(!pd.seen_at_least_once);
}

#[test]
fn noise_is_read_a_limited_number_of_times() {
    let mut acu = acu_with(vec![Ok(vec![0xff]); 10_000]);
    let mut pd = PdState::default();
    assert_eq!(acu.receive(&mut pd), Err(Error::Timeout));
    assert_eq!(acu.transport().n_reads, MAX_READS);
    assert_eq!(MAX_READS, 1440);
    assert_eq!(pd.next_sqn, sqn(0));
    assert!(!pd.seen_at_least_once);
}

#[test]
fn partial_reply_does_not_outlast_the_reply_delay() {
    let frame = reply_frame(0, ReplyCode::Ack, Vec::new());
    let mut acu = acu_with(frame.iter().map(|b| Ok(vec![*b])).collect());
    acu.transport().ms_per_read = 100;
    let mut pd = PdState::default();
    assert_eq!(acu.receive(&mut pd), Err(Error::Timeout));
    assert_eq!(acu.rx_buf, frame[..2]);
    // A reply that the last read in time completes is taken.
    acu.transport().ms_per_read = 30;
    assert_eq!(acu.receive(&mut pd), Ok(Reply::Ack(Ack)));
    assert_eq!(pd.next_sqn, sqn(1));
}

#[test]
fn longest_packet_gets_through_byte_by_byte() {
    let frame = reply_frame(0, ReplyCode::PdId, vec![0x5a; 1432]);
    assert_eq!(frame.len(), MAX_BUS_PACKET);
    let mut acu = acu_with(frame.iter().map(|b| Ok(vec![*b])).collect());
    let mut pd = PdState::default();
    assert_ne!(acu.receive(&mut pd), Err(Error::Timeout));
    assert_eq!(acu.transport().n_reads, MAX_READS);
    assert_eq!(pd.next_sqn, sqn(1));
}

#[test]
fn retry_is_answered_behind_noise() {
    let mut reads: Vec<Result<Vec<u8>, Error>> = vec![Ok(vec![0x00, 0x01])];
    reads.extend(vec![Ok(Vec::new()); 4]);
    reads.push(Ok(reply_frame(0, ReplyCode::Ack, Vec::new())));
    let mut acu = acu_with(reads);
    let mut pd = PdState::default();
    let outcome = acu.exchange(5, &mut pd, &Command::Poll(Poll)).unwrap();
    assert_eq!(outcome, ExchangeOutcome::Reply(Reply::Ack(Ack)));
    let writes = &acu.transport().writes;
    assert_eq!(writes.len(), 2);
    assert_eq!(writes[0], writes[1]);
}

#[test]
fn receive_counts_a_reply_it_cannot_decode() {
    let mut acu = acu_with(vec![Ok(reply_frame(3, ReplyCode::Ack, vec![1]))]);
    let mut pd = PdState::default();
    assert!(matches!(
        acu.receive(&mut pd),
        Err(Error::MalformedPayload { code: 0x40, .. })
    ));
    assert_eq!(pd.next_sqn, sqn(1));
    assert_eq!(acu.receive(&mut pd).unwrap_err(), Error::Timeout);
    assert_eq!(pd.next_sqn, sqn(1));
}

#[test]
fn unknown_reply_codes_are_reported() {
    let frame = PacketBuilder::plain(
        Address::reply(5).unwrap(),
        ControlByte::new(sqn(0), CtrlFlags::crc()),
        0x01,
        Vec::new(),
    )
    .encode()
    .unwrap();
    let mut acu = acu_with(vec![Ok(frame)]);
    let mut pd = PdState::default();
    assert_eq!(
        acu.receive(&mut pd).unwrap_err(),
        Error::UnknownReply(0x01)
    );
}

#[test]
fn transport_failures_are_reported() {
    let mut acu = acu_with(vec![Err(Error::Io)]);
    let mut pd = PdState::default();
    assert_eq!(
        acu.exchange(5, &mut pd, &Command::Poll(Poll)).unwrap_err(),
        Error::Io
    );
    acu.transport().write_error = Some(Error::Io);
    assert_eq!(
        acu.send_to(5, &mut pd, &Command::Poll(Poll)).unwrap_err(),
        Error::Io
    );
    assert_eq!(
        acu.exchange(5, &mut pd, &Command::Poll(Poll)).unwrap_err(),
        Error::Io
    );
}

#[test]
fn commands_that_cannot_be_sent_are_reported() {
    let mut acu = acu_with(Vec::new());
    let mut pd = PdState::default();
    assert_eq!(
        acu.send_to(0x80, &mut pd, &Command::Poll(Poll)).unwrap_err(),
        Error::BadAddress(0x80)
    );
    let oversized = Command::KeySet(KeySet {
        key_type: 1,
        key: vec![0; 300],
    });
    assert_eq!(
        acu.exchange(5, &mut pd, &oversized).unwrap_err(),
        Error::PayloadTooLarge { len: 300 }
    );
    assert!(acu.transport().writes.is_empty());
}

#[test]
fn checksum_trailer_is_used_where_the_pd_prefers_it() {
    let mut acu = acu_with(Vec::new());
    let mut pd = PdState {
        use_crc: false,
        ..Default::default()
    };
    let bytes = acu.send_to(5, &mut pd, &Command::Poll(Poll)).unwrap();
    assert_eq!(bytes, [0x53, 0x05, 0x07, 0x00, 0x00, 0x60, 0x41]);
    assert_eq!(acu.transport().writes, [bytes]);
}

#[test]
fn challenge_is_written_byte_for_byte() {
    let (mut acu, pd) = challenged(Vec::new());
    assert_eq!(
        acu.transport().writes[0],
        [
            0x53, 0x05, 0x13, 0x00, 0x0c, 0x03, 0x11, 0x00, 0x76, 0xa1, 0xa1, 0xa1, 0xa1, 0xa1,
            0xa1, 0xa1, 0xa1, 0x57, 0x13
        ]
    );
    assert!(!pd.is_secure());
    assert_eq!(pd.next_sqn, Sqn::ZERO);
}

#[test]
fn failed_random_source_ends_the_handshake() {
    let mut acu = acu_with(Vec::new());
    let mut pd = PdState::default();
    let err = acu
        .establish_secure_channel(
            5,
            &mut pd,
            &mut FixedKeys(Some(material(AcuSecureKey::Scbk))),
            &mut FixedRandom(Err(Error::Io)),
        )
        .unwrap_err();
    assert_eq!(err, Error::Io);
    assert!(acu.transport().writes.is_empty());
    assert!(pd.secure_state.is_none());
}

#[test]
fn handshake_steps_keep_their_order() {
    let out_of_order = Error::SecureSession(SecureSessionError::BadTransition);
    let mut acu = acu_with(vec![Ok(reply_frame(0, ReplyCode::Ack, Vec::new()))]);
    let mut pd = PdState::default();
    assert_eq!(acu.receive_secure_ccrypt(&mut pd).unwrap_err(), out_of_order);
    assert_eq!(acu.send_secure_scrypt(5, &mut pd).unwrap_err(), out_of_order);

    let (mut acu, mut pd) = challenged(vec![Ok(reply_frame(0, ReplyCode::Ack, Vec::new()))]);
    assert_eq!(acu.receive_secure_rmac_i(&mut pd).unwrap_err(), out_of_order);
    assert_eq!(acu.send_secure_scrypt(5, &mut pd).unwrap_err(), out_of_order);
}

#[test]
fn wrong_client_cryptogram_ends_the_handshake() {
    let mut wrong = ccrypt();
    wrong.client_cryptogram[3] ^= 0x10;
    let (mut acu, mut pd) = challenged(vec![Ok(block_frame(
        0,
        Scb::new(ScsType::Scs12, [0]),
        ReplyCode::CCrypt,
        wrong.encode().unwrap(),
    ))]);
    assert_eq!(
        acu.receive_secure_ccrypt(&mut pd).unwrap_err(),
        Error::SecureSession(SecureSessionError::BadCryptogram)
    );
    assert!(pd.secure_state.is_none());
    assert_eq!(pd.next_sqn, Sqn::ZERO);
}

#[test]
fn cryptogram_needs_its_security_block() {
    let data = || ccrypt().encode().unwrap();
    let cases = [
        (
            reply_frame(0, ReplyCode::CCrypt, data()),
            Error::SecureSession(SecureSessionError::NotSecure),
        ),
        (
            block_frame(0, Scb::new(ScsType::Scs14, [0]), ReplyCode::CCrypt, data()),
            Error::BadSecurityBlock(0x14),
        ),
        (
            block_frame(0, Scb::new(ScsType::Scs12, [1]), ReplyCode::CCrypt, data()),
            Error::BadSecurityBlock(0x12),
        ),
    ];
    for (frame, expected) in cases {
        let (mut acu, mut pd) = challenged(vec![Ok(frame)]);
        assert_eq!(acu.receive_secure_ccrypt(&mut pd).unwrap_err(), expected);
        assert!(pd.secure_state.is_none());
    }
    // Another reply under the right block leaves the handshake open.
    let (mut acu, mut pd) = challenged(vec![
        Ok(block_frame(
            0,
            Scb::new(ScsType::Scs12, [0]),
            ReplyCode::Ack,
            Vec::new(),
        )),
        Ok(block_frame(
            0,
            Scb::new(ScsType::Scs12, [0]),
            ReplyCode::CCrypt,
            data(),
        )),
    ]);
    assert_eq!(
        acu.receive_secure_ccrypt(&mut pd).unwrap_err(),
        Error::UnknownReply(0x40)
    );
    acu.receive_secure_ccrypt(&mut pd).unwrap();
    assert_eq!(pd.next_sqn, sqn(1));
}

#[test]
fn handshake_judgement_works_on_plain_values() {
    let (_, mut pd) = challenged(Vec::new());
    let raw = block_frame(
        0,
        Scb::new(ScsType::Scs12, [0]),
        ReplyCode::CCrypt,
        ccrypt().encode().unwrap(),
    );
    let (parsed, _) = ParsedPacket::parse(&raw).unwrap();
    let reply = ParsedReply {
        code: ReplyCode::CCrypt,
        sqn: sqn(0),
        scb: parsed.scb.map(|s| s.to_owned()),
        data: parsed.data.to_vec(),
        raw: raw.clone(),
    };
    take_ccrypt(&mut pd, &reply).unwrap();
    assert_eq!(
        take_ccrypt(&mut pd, &reply).unwrap_err(),
        Error::SecureSession(SecureSessionError::BadTransition)
    );
}

#[test]
fn other_refusals_leave_the_handshake_open() {
    let (mut acu, mut pd) = cryptogrammed(vec![Ok(reply_frame(1, ReplyCode::Nak, vec![0x09]))]);
    assert_eq!(
        acu.receive_secure_rmac_i(&mut pd).unwrap_err(),
        Error::Nak { code: 0x09 }
    );
    assert!(pd.secure_state.is_some());
    assert_eq!(pd.next_sqn, sqn(1));
}

#[test]
fn wrong_initial_rmac_ends_the_handshake() {
    let (mut acu, mut pd) = cryptogrammed(vec![Ok(block_frame(
        1,
        Scb::new(ScsType::Scs14, [1]),
        ReplyCode::RMacI,
        RMacI { r_mac_i: [0; 16] }.encode().unwrap(),
    ))]);
    assert_eq!(
        acu.receive_secure_rmac_i(&mut pd).unwrap_err(),
        Error::SecureSession(SecureSessionError::BadMac)
    );
    assert!(pd.secure_state.is_none());
}

#[test]
fn scs14_status_byte_is_read() {
    let status = |scb: Option<Scb>| require_scs14_status(scb.as_ref());
    assert_eq!(
        status(Some(Scb::new(ScsType::Scs14, [0x01]))).unwrap(),
        Scs14Status::Success
    );
    assert_eq!(
        status(Some(Scb::new(ScsType::Scs14, [0xff]))).unwrap(),
        Scs14Status::Failure
    );
    assert_eq!(
        status(Some(Scb::new(ScsType::Scs14, [0x00]))).unwrap_err(),
        Error::BadSecurityBlock(0x14)
    );
    assert_eq!(
        status(None).unwrap_err(),
        Error::SecureSession(SecureSessionError::NotSecure)
    );
    assert!(require_scb(
        Some(&Scb::new(ScsType::Scs12, [1])),
        ScsType::Scs12,
        AcuSecureKey::Scbk
    )
    .is_ok());
}

#[test]
fn reply_with_wrong_mac_ends_the_session() {
    let forged = PacketBuilder {
        addr: Address::reply(5).unwrap(),
        ctrl: ControlByte::new(sqn(2), CtrlFlags::crc() | CtrlFlags::scb()),
        scb: Some(Scb::new(ScsType::Scs16, [])),
        code: ReplyCode::Ack.as_byte(),
        data: Vec::new(),
    }
    .encode_with_mac(|_| [0; 4])
    .unwrap();
    let (mut acu, mut pd) = secured(vec![Ok(forged)]);
    assert_eq!(
        acu.exchange(5, &mut pd, &Command::Poll(Poll)).unwrap_err(),
        Error::SecureSession(SecureSessionError::BadMac)
    );
    assert!(!pd.is_secure());
    assert_eq!(pd.next_sqn, sqn(2));
}

#[test]
fn secured_commands_are_known_byte_for_byte() {
    let (mut acu, mut pd) = secured(Vec::new());
    let bytes = acu.send_to(5, &mut pd, &Command::Poll(Poll)).unwrap();
    assert_eq!(
        bytes,
        [0x53, 0x05, 0x0e, 0x00, 0x0e, 0x02, 0x15, 0x60, 0xf6, 0x9b, 0x1c, 0x51, 0x62, 0x74]
    );
}

#[test]
fn failed_secure_encoding_has_its_own_effects() {
    // An address that cannot be reached ends the session.
    let (mut acu, mut pd) = secured(Vec::new());
    assert_eq!(
        acu.send_to(0x80, &mut pd, &Command::Poll(Poll)).unwrap_err(),
        Error::BadAddress(0x80)
    );
    assert!(!pd.is_secure());
}

#[test]
fn secured_reply_is_opened() {
    let (_, pd) = secured(Vec::new());
    let mut peer = pd.secure_session().unwrap().clone();
    seal(
        &mut peer,
        Address::pd(5).unwrap(),
        sqn(2),
        Direction::AcuToPd,
        false,
        0x60,
        &[],
    )
    .unwrap();
    let answer = seal(
        &mut peer,
        Address::reply(5).unwrap(),
        sqn(2),
        Direction::PdToAcu,
        true,
        ReplyCode::Nak.as_byte(),
        &[0x06],
    )
    .unwrap();
    let (mut acu, mut pd) = secured(vec![Ok(answer)]);
    let outcome = acu.exchange(5, &mut pd, &Command::Poll(Poll)).unwrap();
    assert_eq!(
        outcome,
        ExchangeOutcome::Reply(Reply::Nak(Nak::simple(NakErrorCode::EncryptionRequired)))
    );
    assert!(pd.is_secure());
    assert_eq!(pd.next_sqn, sqn(3));
}

#[test]
fn attempts_are_judged_on_plain_values() {
    let retry = RetryConfig {
        max_retries: 1,
        overall_budget_ms: 100,
    };
    let mut pd = PdState::default();
    assert!(judge_attempt(&mut pd, None, false, 0, 0, retry, 99).is_none());
    assert_eq!(
        judge_attempt(&mut pd, None, false, 0, 0, retry, 100),
        Some(ExchangeOutcome::Timeout)
    );
    assert_eq!(
        judge_attempt(&mut pd, None, false, 1, 0, retry, 0),
        Some(ExchangeOutcome::Timeout)
    );
    assert_eq!(
        judge_attempt(&mut pd, Some(Reply::Busy(Busy)), false, 0, 0, retry, 5),
        Some(ExchangeOutcome::Busy)
    );
    assert_eq!(pd.next_sqn, Sqn::ZERO);
    assert_eq!(
        judge_attempt(&mut pd, Some(Reply::Ack(Ack)), false, 0, 0, retry, 6),
        Some(ExchangeOutcome::Reply(Reply::Ack(Ack)))
    );
    assert_eq!(pd.next_sqn, sqn(1));
    assert_eq!(pd.last_seen_ms, 6);
    let (_, mut pd) = secured(Vec::new());
    assert_eq!(
        judge_attempt(&mut pd, None, true, 9, 0, retry, 0),
        Some(ExchangeOutcome::Timeout)
    );
    assert!(!pd.is_secure());
}

#[test]
fn memory_transport_moves_bytes() {
    let mut a = VecTransport::new();
    let mut b = VecTransport::new();
    a.write_all(&[1, 2, 3]).unwrap();
    b.feed(&[9]);
    a.shuffle_to(&mut b);
    assert!(a.outgoing.is_empty());
    let mut buf = [0u8; 3];
    assert_eq!(b.read(&mut buf).unwrap(), 3);
    assert_eq!(buf, [9, 1, 2]);
    assert_eq!(b.read(&mut buf).unwrap(), 1);
    assert_eq!(b.read(&mut buf).unwrap(), 0);
}
