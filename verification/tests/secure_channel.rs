//! The secure channel on concrete values.

use osdp::command::SCrypt;
use osdp::error::{Error, SecureSessionError};
use osdp::packet::{
    Address, ControlByte, CtrlFlags, PacketBuilder, ParsedPacket, Scb, ScsType, Sqn,
};
use osdp::secure::cipher::{
    cbc_decrypt_blocks, cbc_encrypt_blocks, complement_block, encipher, message_mac_of, pad_bytes,
    unpad_bytes,
};
use osdp::secure::frame::{seal, unseal, Direction};
use osdp::secure::{Disconnected, Secure, Session, SCBK_D};

const RND_A: [u8; 8] = [0xa1; 8];
const RND_B: [u8; 8] = [0xb2; 8];

const CLIENT: [u8; 16] = [
    0x92, 0x68, 0x5f, 0xbf, 0x06, 0x5c, 0xbe, 0xc4, 0xef, 0x44, 0x7f, 0x1e, 0x93, 0xfe, 0xba, 0x33,
];
const SERVER: [u8; 16] = [
    0xbe, 0x66, 0xaf, 0x70, 0xd1, 0x62, 0xcc, 0x63, 0x1d, 0x63, 0xe7, 0x1a, 0xf2, 0x64, 0x0e, 0xea,
];
const RMAC: [u8; 16] = [
    0x7a, 0x66, 0xb2, 0x6c, 0xf0, 0xc3, 0xd1, 0xc9, 0x7f, 0xbf, 0xc9, 0x48, 0x3e, 0xd4, 0xd1, 0xa8,
];
const SEALED_POLL: [u8; 14] = [
    0x53, 0x05, 0x0e, 0x00, 0x0e, 0x02, 0x15, 0x60, 0xf6, 0x9b, 0x1c, 0x51, 0x62, 0x74,
];
const SEALED_ACK: [u8; 14] = [
    0x53, 0x85, 0x0e, 0x00, 0x0e, 0x02, 0x16, 0x40, 0xfd, 0x91, 0xa3, 0xcf, 0x06, 0x8e,
];
const SEALED_ID: [u8; 30] = [
    0x53, 0x05, 0x1e, 0x00, 0x0e, 0x02, 0x17, 0x61, 0xd8, 0x40, 0xe0, 0x6c, 0x82, 0x31, 0x64, 0x3d,
    0x44, 0x74, 0xce, 0x23, 0x77, 0x29, 0xa3, 0x9b, 0xd3, 0xb6, 0x87, 0x87, 0xf1, 0x9b,
];
const SEALED_KEYSET: [u8; 46] = [
    0x53, 0x05, 0x2e, 0x00, 0x0e, 0x02, 0x17, 0x75, 0x3f, 0x18, 0xdb, 0xb4, 0x78, 0xdf, 0x13, 0x4b,
    0x86, 0xfc, 0x8e, 0x6e, 0x23, 0x66, 0xa3, 0x25, 0x3a, 0x99, 0x23, 0x7c, 0x5f, 0x54, 0x30, 0xc5,
    0xc6, 0xea, 0x38, 0x97, 0x04, 0xd9, 0xc5, 0x3b, 0x73, 0x42, 0x13, 0x00, 0xb2, 0xbe,
];

fn sqn(v: u8) -> Sqn {
    Sqn::new(v).unwrap()
}

fn pd_addr() -> Address {
    Address::pd(5).unwrap()
}

fn reply_addr() -> Address {
    Address::reply(5).unwrap()
}

/// Both ends of an established session.
fn sessions() -> (Session<Secure>, Session<Secure>) {
    let pd = Session::<Disconnected>::new(SCBK_D).receive_challenge(RND_A, [0xc1; 8], RND_B);
    let acu = Session::<Disconnected>::new(SCBK_D)
        .challenge(RND_A)
        .receive_ccrypt(&pd.ccrypt())
        .unwrap();
    let (pd, rmac_i) = pd
        .receive_scrypt(&SCrypt::new(acu.server_cryptogram()))
        .unwrap();
    let acu = acu.confirm_rmac_i(&rmac_i.r_mac_i).unwrap();
    (acu, pd)
}

#[test]
fn block_cipher_has_the_known_value() {
    let mut key = [0u8; 16];
    let mut block = [0u8; 16];
    for i in 0..16 {
        key[i] = i as u8;
        block[i] = 0x11 * i as u8;
    }
    assert_eq!(
        encipher(&key, &block),
        [
            0x69, 0xc4, 0xe0, 0xd8, 0x6a, 0x7b, 0x04, 0x30, 0xd8, 0xcd, 0xb7, 0x80, 0x70, 0xb4,
            0xc5, 0x5a
        ]
    );
}

#[test]
fn chaining_is_undone_by_its_inverse() {
    let plain: Vec<u8> = (0..48).collect();
    let wire = cbc_encrypt_blocks(&[7; 16], &[9; 16], &plain);
    assert_eq!(wire.len(), 48);
    assert_ne!(wire, plain);
    assert_eq!(cbc_decrypt_blocks(&[7; 16], &[9; 16], &wire), plain);
    // One block under a zero vector is the bare cipher.
    assert_eq!(
        cbc_encrypt_blocks(&[7; 16], &[0; 16], &[3; 16]),
        encipher(&[7; 16], &[3; 16])
    );
    assert_eq!(complement_block(&[0x0f; 16]), [0xf0; 16]);
}

#[test]
fn padding_marks_the_end() {
    assert_eq!(pad_bytes(&[]).len(), 16);
    assert_eq!(pad_bytes(&[1; 15]).len(), 16);
    assert_eq!(pad_bytes(&[1; 16]).len(), 32);
    assert_eq!(pad_bytes(&[1, 2])[..4], [1, 2, 0x80, 0]);
    for n in 0..40 {
        let data = vec![0x80; n];
        assert_eq!(unpad_bytes(pad_bytes(&data)), Some(data));
    }
    assert_eq!(unpad_bytes(vec![0; 16]), None);
    assert_eq!(unpad_bytes(vec![1; 16]), None);
}

#[test]
fn handshake_has_known_cryptograms() {
    let pd = Session::<Disconnected>::new(SCBK_D).receive_challenge(RND_A, [0xc1; 8], RND_B);
    let ccrypt = pd.ccrypt();
    assert_eq!(ccrypt.cuid, [0xc1; 8]);
    assert_eq!(ccrypt.rnd_b, RND_B);
    assert_eq!(ccrypt.client_cryptogram, CLIENT);
    let acu = Session::<Disconnected>::new(SCBK_D)
        .challenge(RND_A)
        .receive_ccrypt(&ccrypt)
        .unwrap();
    assert_eq!(acu.server_cryptogram(), SERVER);
    assert_eq!(acu.initial_rmac(), RMAC);
}

#[test]
fn wrong_cryptograms_are_refused() {
    let pd = Session::<Disconnected>::new(SCBK_D).receive_challenge(RND_A, [0xc1; 8], RND_B);
    let mut ccrypt = pd.ccrypt();
    ccrypt.client_cryptogram[0] ^= 1;
    let err = Session::<Disconnected>::new(SCBK_D)
        .challenge(RND_A)
        .receive_ccrypt(&ccrypt)
        .unwrap_err()
        .1;
    assert_eq!(err, SecureSessionError::BadCryptogram);

    let mut server = SERVER;
    server[15] ^= 1;
    let err = pd.receive_scrypt(&SCrypt::new(server)).unwrap_err().1;
    assert_eq!(err, SecureSessionError::BadCryptogram);

    let pd = Session::<Disconnected>::new(SCBK_D).receive_challenge(RND_A, [0xc1; 8], RND_B);
    let acu = Session::<Disconnected>::new(SCBK_D)
        .challenge(RND_A)
        .receive_ccrypt(&pd.ccrypt())
        .unwrap();
    let err = acu.confirm_rmac_i(&[0; 16]).unwrap_err().1;
    assert_eq!(err, SecureSessionError::BadMac);
}

#[test]
fn ends_with_different_keys_do_not_agree() {
    let pd = Session::<Disconnected>::new([0x11; 16]).receive_challenge(RND_A, [0xc1; 8], RND_B);
    assert!(Session::<Disconnected>::new(SCBK_D)
        .challenge(RND_A)
        .receive_ccrypt(&pd.ccrypt())
        .is_err());
}

#[test]
fn sealed_frames_are_known_byte_for_byte() {
    let (mut acu, _) = sessions();
    let poll = seal(
        &mut acu,
        pd_addr(),
        sqn(2),
        Direction::AcuToPd,
        false,
        0x60,
        &[],
    )
    .unwrap();
    assert_eq!(poll, SEALED_POLL);
    let ack = seal(
        &mut acu,
        reply_addr(),
        sqn(2),
        Direction::PdToAcu,
        false,
        0x40,
        &[],
    )
    .unwrap();
    assert_eq!(ack, SEALED_ACK);

    let (mut acu, _) = sessions();
    let id = seal(
        &mut acu,
        pd_addr(),
        sqn(2),
        Direction::AcuToPd,
        true,
        0x61,
        &[0],
    )
    .unwrap();
    assert_eq!(id, SEALED_ID);

    let (mut acu, _) = sessions();
    let mut keyset = vec![1, 16];
    keyset.extend_from_slice(&[0x5a; 16]);
    let keyset = seal(
        &mut acu,
        pd_addr(),
        sqn(2),
        Direction::AcuToPd,
        true,
        0x75,
        &keyset,
    )
    .unwrap();
    assert_eq!(keyset, SEALED_KEYSET);
}

#[test]
fn sealed_frames_open_at_the_other_end() {
    let (mut acu, mut pd) = sessions();
    for n in [0usize, 1, 15, 16, 17, 100] {
        let data: Vec<u8> = (0..n as u8).collect();
        let raw = seal(
            &mut acu,
            pd_addr(),
            sqn(1),
            Direction::AcuToPd,
            n > 0,
            0x80,
            &data,
        )
        .unwrap();
        let (parsed, used) = ParsedPacket::parse(&raw).unwrap();
        assert_eq!(used, raw.len());
        let (next, plain) = unseal(pd, &parsed, &raw).unwrap();
        assert_eq!(plain, data);
        pd = next;

        let raw = seal(
            &mut pd,
            reply_addr(),
            sqn(1),
            Direction::PdToAcu,
            true,
            0x90,
            &data,
        )
        .unwrap();
        let (parsed, _) = ParsedPacket::parse(&raw).unwrap();
        assert_eq!(parsed.scb.unwrap().ty, ScsType::Scs18);
        let (next, plain) = unseal(acu, &parsed, &raw).unwrap();
        assert_eq!(plain, data);
        acu = next;
    }
}

#[test]
fn frame_is_not_taken_twice() {
    let (mut acu, pd) = sessions();
    let raw = seal(
        &mut acu,
        pd_addr(),
        sqn(1),
        Direction::AcuToPd,
        true,
        0x61,
        &[0],
    )
    .unwrap();
    let reply = seal(
        &mut acu,
        reply_addr(),
        sqn(1),
        Direction::PdToAcu,
        false,
        0x40,
        &[],
    )
    .unwrap();
    let (parsed, _) = ParsedPacket::parse(&raw).unwrap();
    let (pd, _) = unseal(pd, &parsed, &raw).unwrap();
    let (parsed_reply, _) = ParsedPacket::parse(&reply).unwrap();
    let (pd, _) = unseal(pd, &parsed_reply, &reply).unwrap();
    let err = unseal(pd, &parsed, &raw).unwrap_err();
    assert_eq!(err.error, Error::SecureSession(SecureSessionError::BadMac));
}

#[test]
fn plaintext_data_is_not_sealed() {
    let (mut acu, pd) = sessions();
    assert_eq!(
        seal(
            &mut acu,
            pd_addr(),
            sqn(1),
            Direction::AcuToPd,
            false,
            0x61,
            &[0]
        )
        .unwrap_err(),
        Error::SecureSession(SecureSessionError::PlaintextData)
    );
    // The session did not move.
    let raw = seal(
        &mut acu,
        pd_addr(),
        sqn(2),
        Direction::AcuToPd,
        false,
        0x60,
        &[],
    )
    .unwrap();
    assert_eq!(raw, SEALED_POLL);
    let (parsed, _) = ParsedPacket::parse(&raw).unwrap();
    assert!(unseal(pd, &parsed, &raw).is_ok());
}

#[test]
fn oversized_data_is_not_sealed() {
    let (mut acu, _) = sessions();
    assert!(matches!(
        seal(
            &mut acu,
            pd_addr(),
            sqn(1),
            Direction::AcuToPd,
            true,
            0x61,
            &vec![0; 0xffff]
        ),
        Err(Error::PayloadTooLarge { .. })
    ));
}

#[test]
fn unsecured_frames_do_not_open() {
    let (_, pd) = sessions();
    let poll = [0x53, 0x05, 0x08, 0x00, 0x04, 0x60, 0xbc, 0x89];
    let (parsed, _) = ParsedPacket::parse(&poll).unwrap();
    let err = unseal(pd, &parsed, &poll).unwrap_err();
    assert_eq!(
        err.error,
        Error::SecureSession(SecureSessionError::NotSecure)
    );

    let (_, pd) = sessions();
    let chlng = [
        0x53, 0x05, 0x13, 0x00, 0x0c, 0x03, 0x11, 0x00, 0x76, 0xa1, 0xa1, 0xa1, 0xa1, 0xa1, 0xa1,
        0xa1, 0xa1, 0x57, 0x13,
    ];
    let (parsed, _) = ParsedPacket::parse(&chlng).unwrap();
    let err = unseal(pd, &parsed, &chlng).unwrap_err();
    assert_eq!(err.error, Error::BadSecurityBlock(0x11));
}

/// Session key of the handshake above.
fn session_key(tag: u8) -> [u8; 16] {
    let mut block = [0u8; 16];
    block[0] = 1;
    block[1] = tag;
    block[2..8].copy_from_slice(&RND_A[..6]);
    encipher(&SCBK_D, &block)
}

/// First command of the session above, with a right MAC over any DATA.
fn signed(ty: ScsType, data: Vec<u8>) -> Vec<u8> {
    PacketBuilder {
        addr: pd_addr(),
        ctrl: ControlByte::new(sqn(2), CtrlFlags::crc() | CtrlFlags::scb()),
        scb: Some(Scb::new(ty, [])),
        code: 0x60,
        data,
    }
    .encode_with_mac(|prefix| {
        let mac = message_mac_of(&session_key(1), &session_key(2), &RMAC, prefix);
        [mac[0], mac[1], mac[2], mac[3]]
    })
    .unwrap()
}

fn open_error(raw: &[u8]) -> Error {
    let (_, pd) = sessions();
    let (parsed, _) = ParsedPacket::parse(raw).unwrap();
    unseal(pd, &parsed, raw).unwrap_err().error
}

#[test]
fn authentic_frames_with_unsound_data_do_not_open() {
    assert_eq!(signed(ScsType::Scs15, Vec::new()), SEALED_POLL);
    assert_eq!(
        open_error(&signed(ScsType::Scs15, vec![1])),
        Error::SecureSession(SecureSessionError::PlaintextData)
    );
    for wrong_length in [0, 15, 17] {
        assert_eq!(
            open_error(&signed(ScsType::Scs17, vec![0; wrong_length])),
            Error::MalformedPayload {
                code: 0x60,
                reason: "encrypted DATA must be whole blocks"
            }
        );
    }
    let unpadded = cbc_encrypt_blocks(&session_key(0x82), &complement_block(&RMAC), &[0; 16]);
    assert_eq!(
        open_error(&signed(ScsType::Scs17, unpadded)),
        Error::MalformedPayload {
            code: 0x60,
            reason: "encrypted DATA is badly padded"
        }
    );
}

#[test]
fn mac_is_judged_before_data() {
    let mut raw = PacketBuilder {
        addr: pd_addr(),
        ctrl: ControlByte::new(sqn(2), CtrlFlags::crc() | CtrlFlags::scb()),
        scb: Some(Scb::new(ScsType::Scs17, [])),
        code: 0x60,
        data: vec![0; 15],
    }
    .encode_with_mac(|_| [0; 4])
    .unwrap();
    assert_eq!(
        open_error(&raw),
        Error::SecureSession(SecureSessionError::BadMac)
    );
    raw = signed(ScsType::Scs15, vec![1]);
    assert_ne!(
        open_error(&raw),
        Error::SecureSession(SecureSessionError::BadMac)
    );
}
