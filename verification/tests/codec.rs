//! Frames, commands and replies on concrete values.

use osdp::command::{Chlng, Command, CommandCode, Id, KeySet, Poll, RawCommand, SCrypt};
use osdp::error::Error;
use osdp::packet::control::BROADCAST_ADDR;
use osdp::packet::trailer::{checksum_of, crc16_of};
use osdp::packet::{
    Address, ControlByte, CtrlFlags, PacketBuilder, ParsedPacket, Scb, ScsType, Sqn,
};
use osdp::reply::{CCrypt, Nak, NakErrorCode, PdId, RMacI, Reply, ReplyCode};

const POLL_CRC: [u8; 8] = [0x53, 0x05, 0x08, 0x00, 0x04, 0x60, 0xbc, 0x89];
const POLL_SUM: [u8; 7] = [0x53, 0x05, 0x07, 0x00, 0x00, 0x60, 0x41];

fn poll(flags: CtrlFlags) -> Vec<u8> {
    PacketBuilder::plain(
        Address::pd(5).unwrap(),
        ControlByte::new(Sqn::ZERO, flags),
        CommandCode::Poll.as_byte(),
        Vec::new(),
    )
    .encode()
    .unwrap()
}

#[test]
fn trailers_have_known_values() {
    assert_eq!(crc16_of(b"123456789"), 0xe5cc);
    assert_eq!(crc16_of(&[]), 0x1d0f);
    assert_eq!(checksum_of(&[0x53, 0x05, 0x07, 0x00, 0x00, 0x60]), 0x41);
    assert_eq!(checksum_of(&[]), 0);
}

#[test]
fn checksum_brings_the_sum_to_zero() {
    let sum = POLL_SUM.iter().fold(0u8, |a, b| a.wrapping_add(*b));
    assert_eq!(sum, 0);
}

#[test]
fn poll_frame_is_written_byte_for_byte() {
    assert_eq!(poll(CtrlFlags::crc()), POLL_CRC);
    assert_eq!(poll(CtrlFlags::empty()), POLL_SUM);
}

#[test]
fn frame_with_security_block_is_written_byte_for_byte() {
    let bytes = PacketBuilder {
        addr: Address::pd(5).unwrap(),
        ctrl: ControlByte::new(Sqn::ZERO, CtrlFlags::crc() | CtrlFlags::scb()),
        scb: Some(Scb::new(ScsType::Scs11, [0])),
        code: CommandCode::Chlng.as_byte(),
        data: vec![0xa1; 8],
    }
    .encode()
    .unwrap();
    assert_eq!(
        bytes,
        [
            0x53, 0x05, 0x13, 0x00, 0x0c, 0x03, 0x11, 0x00, 0x76, 0xa1, 0xa1, 0xa1, 0xa1, 0xa1,
            0xa1, 0xa1, 0xa1, 0x57, 0x13
        ]
    );
    let (parsed, used) = ParsedPacket::parse(&bytes).unwrap();
    assert_eq!(used, bytes.len());
    let scb = parsed.scb.unwrap();
    assert_eq!(scb.ty, ScsType::Scs11);
    assert_eq!(scb.data, &[0]);
    assert_eq!(parsed.code, 0x76);
    assert_eq!(parsed.data, &[0xa1; 8]);
    assert!(parsed.mac.is_none());
}

#[test]
fn written_frame_parses_back_whatever_follows() {
    let mut buf = POLL_CRC.to_vec();
    buf.extend_from_slice(&[0x53, 0xff]);
    let (parsed, used) = ParsedPacket::parse(&buf).unwrap();
    assert_eq!(used, 8);
    assert_eq!(parsed.addr.pd_addr(), 5);
    assert!(!parsed.addr.is_reply());
    assert!(!parsed.addr.is_broadcast());
    assert_eq!(parsed.ctrl.sqn, Sqn::ZERO);
    assert!(parsed.ctrl.flags.use_crc);
    assert!(parsed.scb.is_none());
    assert!(parsed.data.is_empty());
    let (alone, _) = ParsedPacket::parse(&buf[..8]).unwrap();
    assert_eq!(alone, parsed);
}

#[test]
fn frame_with_mac_carries_it_before_the_trailer() {
    let bytes = PacketBuilder {
        addr: Address::reply(5).unwrap(),
        ctrl: ControlByte::new(Sqn::new(1).unwrap(), CtrlFlags::scb()),
        scb: Some(Scb::new(ScsType::Scs16, [])),
        code: ReplyCode::Ack.as_byte(),
        data: Vec::new(),
    }
    .encode_with_mac(|prefix| [prefix.len() as u8, 1, 2, 3])
    .unwrap();
    let (parsed, _) = ParsedPacket::parse(&bytes).unwrap();
    assert_eq!(parsed.mac, Some(&[8u8, 1, 2, 3][..]));
    assert_eq!(bytes.len(), 13);
}

#[test]
fn incomplete_frames_ask_for_more() {
    assert_eq!(
        ParsedPacket::parse(&[]).unwrap_err(),
        Error::Truncated { have: 0, need: 5 }
    );
    assert_eq!(
        ParsedPacket::parse(&POLL_CRC[..4]).unwrap_err(),
        Error::Truncated { have: 4, need: 5 }
    );
    assert_eq!(
        ParsedPacket::parse(&POLL_CRC[..7]).unwrap_err(),
        Error::Truncated { have: 7, need: 8 }
    );
}

#[test]
fn broken_frames_are_refused() {
    assert_eq!(
        ParsedPacket::parse(&[0x52, 0, 0, 0, 0]).unwrap_err(),
        Error::BadSom(0x52)
    );
    assert_eq!(
        ParsedPacket::parse(&[0x53, 5, 7, 0, 4]).unwrap_err(),
        Error::BadLength(7)
    );
    let mut crc = POLL_CRC;
    crc[7] ^= 1;
    assert_eq!(
        ParsedPacket::parse(&crc).unwrap_err(),
        Error::BadCrc {
            expected: 0x89bc,
            got: 0x88bc
        }
    );
    let mut sum = POLL_SUM;
    sum[6] = 0x40;
    assert_eq!(
        ParsedPacket::parse(&sum).unwrap_err(),
        Error::BadChecksum {
            expected: 0x41,
            got: 0x40
        }
    );
}

#[test]
fn broken_security_blocks_are_refused() {
    let with_block = |block: &[u8]| {
        let mut body = vec![0x53, 0x05, (6 + block.len() + 1) as u8, 0, 0x08];
        body.extend_from_slice(block);
        body.push(0x60);
        let sum = checksum_of(&body);
        body.push(sum);
        body
    };
    assert_eq!(
        ParsedPacket::parse(&with_block(&[1, 0x11])).unwrap_err(),
        Error::BadLength(9)
    );
    assert_eq!(
        ParsedPacket::parse(&with_block(&[9, 0x11])).unwrap_err(),
        Error::BadLength(9)
    );
    assert_eq!(
        ParsedPacket::parse(&with_block(&[2, 0x19])).unwrap_err(),
        Error::BadSecurityBlock(0x19)
    );
    // A type that carries a MAC needs room for one.
    assert_eq!(
        ParsedPacket::parse(&with_block(&[2, 0x15])).unwrap_err(),
        Error::BadLength(9)
    );
}

#[test]
fn frames_that_cannot_be_written_are_refused() {
    let plain = |data: Vec<u8>| {
        PacketBuilder::plain(
            Address::pd(5).unwrap(),
            ControlByte::new(Sqn::ZERO, CtrlFlags::crc()),
            0x60,
            data,
        )
        .encode()
    };
    assert_eq!(plain(vec![0; 0xffff - 8]).unwrap().len(), 0xffff);
    assert_eq!(
        plain(vec![0; 0xffff - 7]).unwrap_err(),
        Error::PayloadTooLarge { len: 0xffff - 7 }
    );
    let block = |scb: Option<Scb>| PacketBuilder {
        addr: Address::pd(5).unwrap(),
        ctrl: ControlByte::new(Sqn::ZERO, CtrlFlags::crc()),
        scb,
        code: 0x60,
        data: Vec::new(),
    };
    assert_eq!(
        block(Some(Scb::new(ScsType::Scs11, [0; 254])))
            .encode()
            .unwrap_err(),
        Error::PayloadTooLarge { len: 254 }
    );
    assert_eq!(
        block(Some(Scb::new(ScsType::Scs15, []))).encode().unwrap_err(),
        Error::BadSecurityBlock(0x15)
    );
    assert_eq!(
        block(Some(Scb::new(ScsType::Scs11, [])))
            .encode_with_mac(|_| [0; 4])
            .unwrap_err(),
        Error::BadSecurityBlock(0x11)
    );
    assert!(matches!(
        block(None).encode_with_mac(|_| [0; 4]),
        Err(Error::SecureSession(_))
    ));
}

#[test]
fn addresses_and_sequence_numbers_are_checked() {
    assert_eq!(Address::pd(0x80).unwrap_err(), Error::BadAddress(0x80));
    assert_eq!(Address::reply(0xff).unwrap_err(), Error::BadAddress(0xff));
    assert_eq!(Address::reply(5).unwrap().byte, 0x85);
    assert_eq!(Address::reply(5).unwrap().pd_addr(), 5);
    assert!(Address::pd(BROADCAST_ADDR).unwrap().is_broadcast());
    assert_eq!(Sqn::new(4).unwrap_err(), Error::BadSqn(4));
}

#[test]
fn sequence_numbers_cycle_without_zero() {
    let mut sqn = Sqn::ZERO;
    let mut seen = Vec::new();
    for _ in 0..7 {
        sqn = sqn.next();
        seen.push(sqn.value());
    }
    assert_eq!(seen, [1, 2, 3, 1, 2, 3, 1]);
}

#[test]
fn control_byte_survives_its_round_trip() {
    for v in 0..4 {
        for crc in [false, true] {
            for scb in [false, true] {
                let c = ControlByte::new(
                    Sqn::new(v).unwrap(),
                    CtrlFlags {
                        use_crc: crc,
                        has_scb: scb,
                    },
                );
                assert_eq!(ControlByte::from_byte(c.as_byte()), c);
            }
        }
    }
    assert_eq!(
        ControlByte::new(Sqn::new(2).unwrap(), CtrlFlags::crc() | CtrlFlags::scb()).as_byte(),
        0x0e
    );
}

#[test]
fn every_code_survives_its_round_trip() {
    let mut commands = 0;
    let mut replies = 0;
    for b in 0..=255u8 {
        match CommandCode::from_byte(b) {
            Ok(code) => {
                assert_eq!(code.as_byte(), b);
                commands += 1;
            }
            Err(e) => assert_eq!(e, Error::UnknownCommand(b)),
        }
        match ReplyCode::from_byte(b) {
            Ok(code) => {
                assert_eq!(code.as_byte(), b);
                replies += 1;
            }
            Err(e) => assert_eq!(e, Error::UnknownReply(b)),
        }
        match ScsType::from_byte(b) {
            Ok(ty) => assert_eq!(ty.as_byte(), b),
            Err(e) => assert_eq!(e, Error::BadSecurityBlock(b)),
        }
        assert_eq!(NakErrorCode::from_byte(b).as_byte(), b);
    }
    assert_eq!(commands, 26);
    assert_eq!(replies, 25);
}

#[test]
fn commands_survive_their_round_trip() {
    let commands = [
        Command::Poll(Poll),
        Command::Id(Id::standard()),
        Command::Chlng(Chlng::new([7; 8])),
        Command::SCrypt(SCrypt::new([9; 16])),
        Command::KeySet(KeySet::scbk([0x5a; 16])),
        Command::Raw(RawCommand {
            code: CommandCode::Led,
            data: vec![1, 2, 3],
        }),
    ];
    for command in commands {
        let data = command.encode_data().unwrap();
        assert_eq!(Command::decode(command.code(), &data).unwrap(), command);
    }
    assert_eq!(
        Command::KeySet(KeySet::scbk([0x5a; 16])).encode_data().unwrap()[..3],
        [1, 16, 0x5a]
    );
}

#[test]
fn malformed_commands_are_refused() {
    let cases: [(CommandCode, &[u8], u8); 6] = [
        (CommandCode::Poll, &[0], 0x60),
        (CommandCode::Id, &[], 0x61),
        (CommandCode::Chlng, &[0; 7], 0x76),
        (CommandCode::SCrypt, &[0; 17], 0x77),
        (CommandCode::KeySet, &[1], 0x75),
        (CommandCode::KeySet, &[1, 3, 0, 0], 0x75),
    ];
    for (code, data, expected) in cases {
        assert!(matches!(
            Command::decode(code, data),
            Err(Error::MalformedPayload { code, .. }) if code == expected
        ));
    }
    assert_eq!(
        Command::KeySet(KeySet {
            key_type: 1,
            key: vec![0; 256]
        })
        .encode_data()
        .unwrap_err(),
        Error::PayloadTooLarge { len: 256 }
    );
}

#[test]
fn replies_survive_their_round_trip() {
    let id = PdId {
        vendor_oui: [0x00, 0x06, 0x8e],
        model: 0x12,
        version: 0x34,
        serial: 0xcafe_babe,
        firmware: [1, 2, 3],
    };
    assert_eq!(
        id.encode().unwrap(),
        [0x00, 0x06, 0x8e, 0x12, 0x34, 0xbe, 0xba, 0xfe, 0xca, 0x01, 0x02, 0x03]
    );
    let replies = [
        Reply::Nak(Nak {
            error: NakErrorCode::EncryptionRequired,
            details: vec![4, 5],
        }),
        Reply::PdId(id),
        Reply::CCrypt(CCrypt {
            cuid: [1; 8],
            rnd_b: [2; 8],
            client_cryptogram: [3; 16],
        }),
        Reply::RMacI(RMacI { r_mac_i: [4; 16] }),
    ];
    for reply in replies {
        let data = reply.encode_data().unwrap();
        assert_eq!(Reply::decode(reply.code(), &data).unwrap(), reply);
    }
    assert!(matches!(
        Reply::decode(ReplyCode::Keypad, &[1, 2]),
        Ok(Reply::Raw(raw)) if raw.data == [1, 2]
    ));
}

#[test]
fn malformed_replies_are_refused() {
    let cases: [(ReplyCode, &[u8], u8); 6] = [
        (ReplyCode::Ack, &[0], 0x40),
        (ReplyCode::Busy, &[0], 0x79),
        (ReplyCode::Nak, &[], 0x41),
        (ReplyCode::PdId, &[0; 11], 0x45),
        (ReplyCode::CCrypt, &[0; 31], 0x76),
        (ReplyCode::RMacI, &[0; 15], 0x78),
    ];
    for (code, data, expected) in cases {
        assert!(matches!(
            Reply::decode(code, data),
            Err(Error::MalformedPayload { code, .. }) if code == expected
        ));
    }
}
