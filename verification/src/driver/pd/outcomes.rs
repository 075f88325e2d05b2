//! What the PD makes of a command: results, replies on the bus, and what it keeps.

use vstd::prelude::*;

use crate::bytes;
use crate::clock::Clock;
use crate::command;
use crate::command::CommandCode;
use crate::driver::feed;
use crate::driver::pd::laws;
use crate::driver::pd::model::{self, Answers, Asked, PdView, Polled};
use crate::driver::pd::state::{
    HandlerEvent, PdHandler, PdSecureKey, PdSecureKeyProvider, PdSecureState, PdSecureView,
};
use crate::driver::pd::steps::{self, CommandFrame};
use crate::driver::pd::Pd;
use crate::error::{Error, SecureSessionError};
use crate::packet::codec;
use crate::packet::codec::PacketView;
use crate::packet::control::{Address, ControlByte, CtrlFlags, Sqn};
use crate::packet::scb::{ScbView, ScsType};
use crate::reply::ReplyView;
use crate::secure::frame;
use crate::secure::session;
use crate::secure::session::{PdChallengedView, SecureView};
use crate::transport::{IoEvent, Transport};
use crate::SOM;

verus! {

/// Outside a session, a reply goes out from every address of seven bits, with DATA of every
/// length that the LEN field has room for. Its frame is one packet that says the PD's
/// address with the reply bit, the number, the kind of trailer and the reply, and nothing
/// else. Any other reply is refused, for the address first, then for its size.
pub proof fn law_plain_reply_is_framed(
    address: u8,
    use_crc: bool,
    sqn: Sqn,
    reply: ReplyView,
    rest: Seq<u8>,
)
    ensures
        ({
            let size = 6 + reply.data().len() + if use_crc {
                2int
            } else {
                1
            };
            match steps::plain_reply(address, use_crc, sqn, reply) {
                Ok(f) => {
                    &&& address <= 127
                    &&& size <= 65535
                    &&& f.len() == size
                    &&& codec::parse_frame(f + rest) == Ok::<(PacketView, int), Error>(
                        (
                            PacketView {
                                addr: Address { byte: (address + 128) as u8 },
                                ctrl: ControlByte {
                                    sqn,
                                    flags: CtrlFlags { use_crc, has_scb: false },
                                },
                                scb: None,
                                code: reply.code().spec_byte(),
                                data: reply.data(),
                                mac: None,
                            },
                            size,
                        ),
                    )
                },
                Err(e) => if address > 127 {
                    e == Error::BadAddress(address)
                } else {
                    &&& size > 65535
                    &&& e == Error::PayloadTooLarge { len: reply.data().len() as usize }
                },
            }
        }),
{
    codec::law_packet_is_written(
        PacketView {
            addr: Address { byte: (address + 128) as u8 },
            ctrl: ControlByte { sqn, flags: CtrlFlags { use_crc, has_scb: false } },
            scb: None,
            code: reply.code().spec_byte(),
            data: reply.data(),
            mac: None,
        },
        rest,
    );
}

/// A handshake reply goes out from every address of seven bits, as one packet with its
/// security block.
pub proof fn law_handshake_reply_is_framed(
    address: u8,
    use_crc: bool,
    sqn: Sqn,
    scb: ScbView,
    reply: ReplyView,
    rest: Seq<u8>,
)
    requires
        scb.ty is Scs12 || scb.ty is Scs14,
        scb.data.len() == 1,
        reply.data().len() <= 32,
    ensures
        match steps::handshake_reply(address, use_crc, sqn, scb, reply) {
            Ok(f) => {
                &&& address <= 127
                &&& codec::parse_frame(f + rest) == Ok::<(PacketView, int), Error>(
                    (
                        PacketView {
                            addr: Address { byte: (address + 128) as u8 },
                            ctrl: ControlByte { sqn, flags: CtrlFlags { use_crc, has_scb: true } },
                            scb: Some(scb),
                            code: reply.code().spec_byte(),
                            data: reply.data(),
                            mac: None,
                        },
                        f.len() as int,
                    ),
                )
            },
            Err(e) => address > 127 && e == Error::BadAddress(address),
        },
{
    codec::law_packet_is_written(
        PacketView {
            addr: Address { byte: (address + 128) as u8 },
            ctrl: ControlByte { sqn, flags: CtrlFlags { use_crc, has_scb: true } },
            scb: Some(scb),
            code: reply.code().spec_byte(),
            data: reply.data(),
            mac: None,
        },
        rest,
    );
}

/// A reply can be sent: the address has seven bits, and the frame fits the LEN field, in a
/// session with DATA padded.
pub open spec fn can_be_sent(pd: PdView, reply: ReplyView) -> bool {
    &&& pd.address <= 127
    &&& match pd.secure {
        Some(PdSecureView::Secure(_)) => 14 + (if reply.data().len() > 0 {
            16 * (reply.data().len() / 16 + 1)
        } else {
            0
        }) <= 65535,
        _ => 6 + reply.data().len() + (if pd.use_crc {
            2int
        } else {
            1
        }) <= 65535,
    }
}

/// The frame of a reply: one packet from the PD's address, under the number of the command,
/// with the trailer that the PD uses and exactly the reply's code and DATA; or, in a session,
/// with a CRC and the PD's security block, and DATA in whole blocks.
pub open spec fn says(raw: Seq<u8>, pd: PdView, sqn: Sqn, reply: ReplyView) -> bool {
    &&& codec::parse_frame(raw) matches Ok((q, used))
    &&& used == raw.len()
    &&& q.addr == (Address { byte: (pd.address + 128) as u8 })
    &&& q.ctrl.sqn == sqn
    &&& q.code == reply.code().spec_byte()
    &&& match pd.secure {
        Some(PdSecureView::Secure(_)) => {
            &&& q.ctrl.flags.use_crc
            &&& q.scb matches Some(scb) && if reply.data().len() > 0 {
                scb.ty is Scs18
            } else {
                scb.ty is Scs16
            }
        },
        _ => {
            &&& q.ctrl.flags.use_crc == pd.use_crc
            &&& q.scb is None
            &&& q.data == reply.data()
        },
    }
}

/// A reply that can be sent is framed, and says the reply. In a session it moves the session
/// on by the MAC of the reply alone; outside nothing changes. One that cannot be sent is
/// refused, and ends a session.
#[verifier::rlimit(40)]
pub proof fn law_reply_is_framed(pd: PdView, sqn: Sqn, reply: ReplyView)
    ensures
        ({
            let (r, after) = steps::secure_reply(
                pd.address,
                pd.use_crc,
                pd.secure,
                sqn,
                reply,
            );
            if can_be_sent(pd, reply) {
                &&& r matches Ok(raw) && says(raw, pd, sqn, reply)
                &&& match pd.secure {
                    Some(PdSecureView::Secure(s)) => {
                        &&& after matches Some(PdSecureView::Secure(t))
                        &&& t.scbk == s.scbk
                        &&& t.keys == s.keys
                        &&& t.c_mac == s.c_mac
                        &&& codec::parse_frame(r->Ok_0)->Ok_0.0.mac == Some(t.r_mac.take(4))
                    },
                    _ => after == pd.secure,
                }
            } else {
                &&& r is Err
                &&& after == if pd.secure matches Some(PdSecureView::Secure(_)) {
                    None
                } else {
                    pd.secure
                }
            }
        }),
{
    if let Some(PdSecureView::Secure(s)) = pd.secure {
        frame::law_message_is_sealed(
            s,
            Address { byte: (pd.address + 128) as u8 },
            sqn,
            frame::Direction::PdToAcu,
            reply.code().spec_byte(),
            reply.data(),
        );
    } else {
        law_plain_reply_is_framed(pd.address, pd.use_crc, sqn, reply, Seq::empty());
        if let Ok(f) = steps::plain_reply(pd.address, pd.use_crc, sqn, reply) {
            assert(f + Seq::<u8>::empty() =~= f);
        }
    }
}

/// Outside a session the DATA of a command is taken as it stands. In a session it is taken
/// only from a frame that the ACU has secured and that opens under the session; then the
/// session moves on to where opening it has led. A secured frame that does not open leaves
/// the session disconnected; one that is not secured is refused, and the session stands.
pub proof fn law_command_is_opened(secure: Option<PdSecureView>, f: CommandFrame)
    requires
        f.well_formed(),
    ensures
        ({
            let (data, after) = steps::open_command(secure, f);
            match secure {
                Some(PdSecureView::Secure(s)) => if f.scb is Some && (f.scb->0.ty is Scs15
                    || f.scb->0.ty is Scs17) {
                    match data {
                        Ok(d) => after matches Some(PdSecureView::Secure(t)) && frame::opens_to(
                            s,
                            f.raw,
                            t,
                            d,
                        ),
                        Err(e) => {
                            &&& frame::unseal_frame(
                                s,
                                codec::parse_frame(f.raw)->Ok_0.0,
                                f.raw,
                            ) == Err::<(SecureView, Seq<u8>), Error>(e)
                            &&& after == Some(PdSecureView::Disconnected(s.scbk))
                            &&& forall|t: SecureView, d: Seq<u8>|
                                !#[trigger] frame::opens_to(s, f.raw, t, d)
                        },
                    }
                } else {
                    &&& data == Err::<Seq<u8>, Error>(
                        Error::SecureSession(SecureSessionError::NotSecure),
                    )
                    &&& after == secure
                },
                _ => data == Ok::<Seq<u8>, Error>(f.data) && after == secure,
            }
        }),
{
}

/// What stays of a PD's view when only the secure-channel state may have changed.
pub open spec fn differs_in_secure(pd: PdView, after: PdView) -> bool {
    &&& after.address == pd.address
    &&& after.use_crc == pd.use_crc
    &&& after.rx == pd.rx
    &&& after.last_sqn == pd.last_sqn
    &&& after.last_reply == pd.last_reply
    &&& after.config == pd.config
}

/// A reply was written: it is remembered with the number of its command if the transport
/// took it, and else it is not, so that the command can be repeated.
pub open spec fn reply_written(
    pd: PdView,
    sqn: Sqn,
    io: Seq<IoEvent>,
    p: Polled,
) -> bool {
    &&& io.len() > 0
    &&& p.rest == io.skip(1)
    &&& p.pd.address == pd.address
    &&& p.pd.use_crc == pd.use_crc
    &&& p.pd.rx == pd.rx
    &&& p.pd.config == pd.config
    &&& io[0] matches IoEvent::Write(raw, written)
    &&& match written {
        Ok(_) => {
            &&& p.outcome == Ok::<bool, Error>(true)
            &&& p.pd.last_sqn == Some(sqn)
            &&& p.pd.last_reply == Some(raw)
        },
        Err(e) => {
            &&& p.outcome == Err::<bool, Error>(e)
            &&& p.pd.last_sqn == pd.last_sqn
            &&& p.pd.last_reply == pd.last_reply
        },
    }
}

/// A new command that is no part of a handshake. If it does not open, or its contents are
/// wrong, it is refused: the application is not asked, nothing is sent, and the number is not
/// taken for used. Else exactly the command reaches the application, and if the reply can be
/// sent, exactly one frame goes out that says the reply under the number of the command.
/// The PD answers from its own state, which it keeps but for the session.
#[verifier::rlimit(40)]
pub proof fn law_new_command_is_answered(
    pd: PdView,
    f: CommandFrame,
    answers: Answers,
    io: Seq<IoEvent>,
    p: Polled,
)
    requires
        f.well_formed(),
        pd.last_sqn != Some(f.sqn),
        pd.config is None || f.scb is None || !(f.code is Chlng && f.scb->0.ty is Scs11 || f.code
            is SCrypt && f.scb->0.ty is Scs13),
        model::act(pd, f, answers, io) == Some(p),
    ensures
        p.asked.key is None,
        !p.asked.random,
        ({
            let (data, opened) = steps::open_command(pd.secure, f);
            let pd1 = PdView { secure: opened, ..pd };
            match data {
                Err(e) => {
                    &&& p.outcome == Err::<bool, Error>(e)
                    &&& p.asked.command is None
                    &&& p.rest == io
                    &&& differs_in_secure(pd, p.pd)
                    &&& p.pd.secure == opened
                },
                Ok(d) => match command::command_decode(f.code, d) {
                    Err(e) => {
                        &&& p.outcome == Err::<bool, Error>(e)
                        &&& p.asked.command is None
                        &&& p.rest == io
                        &&& differs_in_secure(pd, p.pd)
                        &&& p.pd.secure == opened
                    },
                    Ok(cmd) => {
                        &&& p.asked.command == Some(cmd)
                        &&& if can_be_sent(pd1, answers.reply) {
                            &&& reply_written(pd, f.sqn, io, p)
                            &&& says(io[0]->Write_0, pd1, f.sqn, answers.reply)
                            &&& match opened {
                                Some(PdSecureView::Secure(t)) => {
                                    &&& p.pd.secure matches Some(PdSecureView::Secure(u))
                                    &&& u.scbk == t.scbk
                                    &&& u.keys == t.keys
                                    &&& u.c_mac == t.c_mac
                                },
                                _ => p.pd.secure == opened,
                            }
                        } else {
                            &&& p.outcome is Err
                            &&& p.rest == io
                            &&& differs_in_secure(pd, p.pd)
                        }
                    },
                },
            }
        }),
{
    reveal(model::answer);
    let (data, opened) = steps::open_command(pd.secure, f);
    let pd1 = PdView { secure: opened, ..pd };
    law_reply_is_framed(pd1, f.sqn, answers.reply);
    assert(io.len() > 0 ==> io.skip(1) =~= io.drop_first());
}

/// The number of the last command asks for its reply again. If there is one, exactly it is
/// sent, once; the poll succeeds if the transport takes it. The application is not asked,
/// and nothing changes.
pub proof fn law_repeated_number_gets_the_reply_again(
    pd: PdView,
    f: CommandFrame,
    answers: Answers,
    io: Seq<IoEvent>,
    p: Polled,
)
    requires
        pd.last_sqn == Some(f.sqn),
        model::act(pd, f, answers, io) == Some(p),
    ensures
        p.asked.key is None,
        !p.asked.random,
        p.asked.command is None,
        p.pd == pd,
        match pd.last_reply {
            None => p.outcome == Ok::<bool, Error>(true) && p.rest == io,
            Some(bytes) => {
                &&& io.len() > 0
                &&& p.rest == io.skip(1)
                &&& io[0] matches IoEvent::Write(raw, written)
                &&& raw == bytes
                &&& p.outcome == match written {
                    Ok(_) => Ok(true),
                    Err(e) => Err(e),
                }
            },
        },
{
    assert(io.len() > 0 ==> io.skip(1) =~= io.drop_first());
}

/// A new challenge to a PD with a secure-channel identity. Its selector has to be the one
/// byte zero or one. Then the key that it names is asked for, and if there is one, a random
/// challenge. Without either, and with contents of the wrong size, the challenge is refused
/// and nothing changes. Else the PD answers with its identity, its challenge and its
/// cryptogram, under the number of the command and for the same key, and remembers both
/// challenges and the key in the place of any session.
pub proof fn law_new_challenge_is_answered(
    pd: PdView,
    cuid: Seq<u8>,
    f: CommandFrame,
    answers: Answers,
    io: Seq<IoEvent>,
    p: Polled,
)
    requires
        pd.config == Some(cuid),
        cuid.len() == 8,
        answers.random matches Ok(rnd_b) ==> rnd_b.len() == 8,
        f.code is Chlng,
        f.scb is Some,
        f.scb->0.ty is Scs11,
        pd.last_sqn != Some(f.sqn),
        model::act(pd, f, answers, io) == Some(p),
    ensures
        p.asked.command is None,
        ({
            let selector = f.scb->0.data;
            let key = if selector == seq![1u8] {
                PdSecureKey::Scbk
            } else {
                PdSecureKey::ScbkD
            };
            if selector != seq![0u8] && selector != seq![1u8] {
                &&& p.outcome is Err
                &&& p.outcome->Err_0 is MalformedPayload
                &&& p.outcome->Err_0->MalformedPayload_code == 0x76
                &&& p.asked.key is None
                &&& !p.asked.random
                &&& p.pd == pd
                &&& p.rest == io
            } else {
                &&& p.asked.key == Some(key)
                &&& match (answers.key, answers.random) {
                    (None, _) => {
                        &&& p.outcome is Err
                        &&& p.outcome->Err_0 is MalformedPayload
                        &&& p.outcome->Err_0->MalformedPayload_code == 0x76
                        &&& !p.asked.random
                        &&& p.pd == pd
                        &&& p.rest == io
                    },
                    (Some(_), Err(e)) => {
                        &&& p.outcome == Err::<bool, Error>(e)
                        &&& p.asked.random
                        &&& p.pd == pd
                        &&& p.rest == io
                    },
                    (Some(scbk), Ok(rnd_b)) => {
                        &&& p.asked.random
                        &&& if f.data.len() != 8 {
                            &&& p.outcome is Err
                            &&& p.outcome->Err_0 is MalformedPayload
                            &&& p.pd == pd
                            &&& p.rest == io
                        } else {
                            &&& p.pd.secure == Some(
                                PdSecureView::Challenged {
                                    session: PdChallengedView { scbk, rnd_a: f.data, rnd_b, cuid },
                                    key,
                                },
                            )
                            &&& if pd.address > 127 {
                                &&& p.outcome == Err::<bool, Error>(Error::BadAddress(pd.address))
                                &&& differs_in_secure(pd, p.pd)
                                &&& p.rest == io
                            } else {
                                &&& reply_written(pd, f.sqn, io, p)
                                &&& codec::parse_frame(io[0]->Write_0) == Ok::<
                                    (PacketView, int),
                                    Error,
                                >(
                                    (
                                        PacketView {
                                            addr: Address { byte: (pd.address + 128) as u8 },
                                            ctrl: ControlByte {
                                                sqn: f.sqn,
                                                flags: CtrlFlags {
                                                    use_crc: pd.use_crc,
                                                    has_scb: true,
                                                },
                                            },
                                            scb: Some(
                                                ScbView { ty: ScsType::Scs12, data: selector },
                                            ),
                                            code: 0x76,
                                            data: cuid + rnd_b + session::client_cryptogram(
                                                session::derive_keys(scbk, f.data),
                                                f.data,
                                                rnd_b,
                                            ),
                                            mac: None,
                                        },
                                        io[0]->Write_0.len() as int,
                                    ),
                                )
                            }
                        }
                    },
                }
            }
        }),
{
    reveal(model::answer);
    let selector = f.scb->0.data;
    assert(seq![0u8][0] == 0 && seq![1u8][0] == 1);
    assert(io.len() > 0 ==> io.skip(1) =~= io.drop_first());
    if let (Some(scbk), Ok(rnd_b)) = (answers.key, answers.random) {
        if f.data.len() == 8 && (selector == seq![0u8] || selector == seq![1u8]) {
            let challenged = PdChallengedView { scbk, rnd_a: f.data, rnd_b, cuid };
            let answer = ReplyView::CCrypt(session::ccrypt_of(challenged));
            let scb = ScbView { ty: ScsType::Scs12, data: selector };
            law_handshake_reply_is_framed(
                pd.address,
                pd.use_crc,
                f.sqn,
                scb,
                answer,
                Seq::empty(),
            );
            if let Ok(raw) = steps::handshake_reply(pd.address, pd.use_crc, f.sqn, scb, answer) {
                assert(raw + Seq::<u8>::empty() =~= raw);
            }
        }
    }
}

/// A new proof to a PD that has taken up a challenge. Its selector has to be the one byte
/// zero or one, and its contents sixteen bytes; else it is refused and nothing changes. If it
/// is for another key, or its cryptogram is not the one that the key makes of both
/// challenges, the handshake is over. Else the session stands, with the MACs that a session
/// begins with, and the PD says so under the number of the command, with the initial R-MAC.
/// The application is not asked.
pub proof fn law_new_proof_is_answered(
    pd: PdView,
    challenged: PdChallengedView,
    key: PdSecureKey,
    f: CommandFrame,
    answers: Answers,
    io: Seq<IoEvent>,
    p: Polled,
)
    requires
        pd.config is Some,
        pd.secure == Some(PdSecureView::Challenged { session: challenged, key }),
        f.code is SCrypt,
        f.scb is Some,
        f.scb->0.ty is Scs13,
        pd.last_sqn != Some(f.sqn),
        model::act(pd, f, answers, io) == Some(p),
    ensures
        p.asked.key is None,
        !p.asked.random,
        p.asked.command is None,
        ({
            let selector = f.scb->0.data;
            let keys = session::derive_keys(challenged.scbk, challenged.rnd_a);
            let right = session::server_cryptogram(keys, challenged.rnd_a, challenged.rnd_b);
            let r_mac_i = session::initial_rmac(keys, challenged.rnd_a, challenged.rnd_b);
            if (selector != seq![0u8] && selector != seq![1u8]) || f.data.len() != 16 {
                &&& p.outcome is Err
                &&& p.outcome->Err_0 is MalformedPayload
                &&& p.pd == pd
                &&& p.rest == io
            } else if (selector == seq![1u8]) != (key is Scbk) || f.data != right {
                &&& p.outcome == Err::<bool, Error>(
                    Error::SecureSession(SecureSessionError::BadCryptogram),
                )
                &&& differs_in_secure(pd, p.pd)
                &&& p.pd.secure == Some(PdSecureView::Disconnected(challenged.scbk))
                &&& p.rest == io
            } else {
                &&& p.pd.secure matches Some(PdSecureView::Secure(s)) && {
                    &&& s.scbk == challenged.scbk
                    &&& s.keys == keys
                    &&& s.r_mac == r_mac_i
                    &&& s.c_mac.len() == 16
                    &&& forall|i: int| 0 <= i < 16 ==> s.c_mac[i] == 0
                }
                &&& if pd.address > 127 {
                    &&& p.outcome == Err::<bool, Error>(Error::BadAddress(pd.address))
                    &&& differs_in_secure(pd, p.pd)
                    &&& p.rest == io
                } else {
                    &&& reply_written(pd, f.sqn, io, p)
                    &&& codec::parse_frame(io[0]->Write_0) == Ok::<(PacketView, int), Error>(
                        (
                            PacketView {
                                addr: Address { byte: (pd.address + 128) as u8 },
                                ctrl: ControlByte {
                                    sqn: f.sqn,
                                    flags: CtrlFlags { use_crc: pd.use_crc, has_scb: true },
                                },
                                scb: Some(ScbView { ty: ScsType::Scs14, data: seq![1u8] }),
                                code: 0x78,
                                data: r_mac_i,
                                mac: None,
                            },
                            io[0]->Write_0.len() as int,
                        ),
                    )
                }
            }
        }),
{
    reveal(model::answer);
    let selector = f.scb->0.data;
    let keys = session::derive_keys(challenged.scbk, challenged.rnd_a);
    let r_mac_i = session::initial_rmac(keys, challenged.rnd_a, challenged.rnd_b);
    assert(seq![0u8][0] == 0 && seq![1u8][0] == 1);
    assert(crate::packet::scb::SCS14_STATUS_SUCCESS@ =~= seq![1u8]);
    assert(io.len() > 0 ==> io.skip(1) =~= io.drop_first());
    let answer = ReplyView::RMacI { r_mac_i };
    let scb = ScbView { ty: ScsType::Scs14, data: seq![1u8] };
    law_handshake_reply_is_framed(pd.address, pd.use_crc, f.sqn, scb, answer, Seq::empty());
    if let Ok(raw) = steps::handshake_reply(pd.address, pd.use_crc, f.sqn, scb, answer) {
        assert(raw + Seq::<u8>::empty() =~= raw);
    }
}

/// A proof that nothing has asked for is no part of a handshake: if it has the form of one,
/// it is dealt with as any other command, and else it is refused.
pub proof fn law_stray_proof_is_a_command(
    pd: PdView,
    f: CommandFrame,
    answers: Answers,
    io: Seq<IoEvent>,
)
    requires
        pd.config is Some,
        !(pd.secure is Some && pd.secure->0 is Challenged),
        f.code is SCrypt,
        f.scb is Some,
        f.scb->0.ty is Scs13,
        pd.last_sqn != Some(f.sqn),
    ensures
        ({
            let selector = f.scb->0.data;
            if (selector == seq![0u8] || selector == seq![1u8]) && f.data.len() == 16 {
                model::act(pd, f, answers, io) == match model::act(
                    PdView { config: None, ..pd },
                    f,
                    answers,
                    io,
                ) {
                    Some(p) => Some(Polled { pd: PdView { config: pd.config, ..p.pd }, ..p }),
                    None => None,
                }
            } else {
                model::act(pd, f, answers, io) matches Some(p) && {
                    &&& p.outcome is Err
                    &&& p.outcome->Err_0 is MalformedPayload
                    &&& p.asked == Asked::nothing()
                    &&& p.pd == pd
                    &&& p.rest == io
                }
            }
        }),
{
    reveal(model::answer);
    assert(seq![0u8][0] == 0 && seq![1u8][0] == 1);
}

/// Bytes are gone through frame by frame, from the first start byte on. What stands before
/// it is dropped once a frame has begun. A frame that is not there whole yet is waited for.
/// A whole frame for another PD is skipped. A frame for this PD, or for all, is handed out
/// with its fields, and what follows it is kept. Anything wrong with a frame, and a code that
/// no command has, is reported, and the bytes are kept from that frame on.
#[verifier::rlimit(50)]
pub proof fn law_bytes_are_scanned_frame_by_frame(address: u8, noise: Seq<u8>, buf: Seq<u8>)
    requires
        forall|i: int| 0 <= i < noise.len() ==> noise[i] != 0x53,
    ensures
        model::scan_command(address, noise) == (
            Ok::<Option<CommandFrame>, Error>(None),
            noise,
        ),
        buf.len() > 0 && buf[0] == 0x53 ==> model::scan_command(address, noise + buf) == match codec::parse_frame(
            buf,
        ) {
            Err(Error::Truncated { .. }) => (Ok::<Option<CommandFrame>, Error>(None), buf),
            Err(e) => (Err(e), buf),
            Ok((p, used)) => if p.addr.byte % 128 != address && p.addr.byte % 128 != 127 {
                model::scan_command(address, buf.skip(used))
            } else {
                match CommandCode::spec_from_byte(p.code) {
                    Err(e) => (Err(e), buf),
                    Ok(code) => (
                        Ok(
                            Some(
                                CommandFrame {
                                    code,
                                    sqn: p.ctrl.sqn,
                                    scb: p.scb,
                                    data: p.data,
                                    raw: buf.take(used),
                                },
                            ),
                        ),
                        buf.skip(used),
                    ),
                }
            },
        },
{
    bytes::lemma_first_index_is(noise, SOM, noise.len());
    if buf.len() > 0 && buf[0] == 0x53 {
        let all = noise + buf;
        assert forall|i: int| 0 <= i < noise.len() implies all[i] != SOM by {
            assert(all[i] == noise[i]);
        }
        bytes::lemma_first_index_is(all, SOM, noise.len());
        assert(all.skip(noise.len() as int) =~= buf);
    }
}

/// A poll goes by the first command that is complete among all the bytes received, and by
/// nothing else. Where there is none it asks for more bytes, where something is wrong it
/// says so, and either way it keeps everything but the bytes that it is done with: nothing is
/// sent, and the application is not asked.
pub proof fn law_poll_acts_on_what_stands_first(
    pd: PdView,
    answers: Answers,
    reads: Seq<IoEvent>,
    io: Seq<IoEvent>,
)
    requires
        model::drain(pd.address, pd.rx, 0, reads) is Some,
        model::drain(pd.address, pd.rx, 0, reads)->0.rest.len() == 0,
    ensures
        ({
            let (found, rx) = model::scan_command(pd.address, pd.rx + feed::bytes_read(reads));
            let p = model::poll(pd, answers, reads + io);
            if feed::delivers(reads, feed::bytes_read(reads)) {
                match found {
                    Ok(Some(f)) => p == model::act(PdView { rx, ..pd }, f, answers, io),
                    _ => {
                        &&& p is Some
                        &&& p->0.outcome == match found {
                            Err(e) => Err(e),
                            Ok(_) => Ok(false),
                        }
                        &&& p->0.pd.address == pd.address
                        &&& p->0.pd.use_crc == pd.use_crc
                        &&& p->0.pd.rx == rx
                        &&& p->0.pd.last_sqn == pd.last_sqn
                        &&& p->0.pd.last_reply == pd.last_reply
                        &&& p->0.pd.config == pd.config
                        &&& p->0.pd.secure == pd.secure
                        &&& p->0.asked.key is None
                        &&& !p->0.asked.random
                        &&& p->0.asked.command is None
                        &&& p->0.rest == io
                    },
                }
            } else {
                &&& p is Some
                &&& reads.last() matches IoEvent::Read(Err(e)) && p->0.outcome == Err::<
                    bool,
                    Error,
                >(e)
                &&& p->0.pd == (PdView { rx: p->0.pd.rx, ..pd })
                &&& p->0.pd.rx == if reads.len() == 1 {
                    pd.rx
                } else {
                    model::scan_command(
                        pd.address,
                        pd.rx + feed::bytes_read(reads.drop_last()),
                    ).1
                }
                &&& p->0.asked == Asked::nothing()
                &&& p->0.rest == io
            }
        }),
{
    if feed::delivers(reads, feed::bytes_read(reads)) {
        laws::law_pieces_make_a_command(pd, answers, reads, io);
    } else {
        reveal(model::poll);
        model::lemma_drain_extends(pd.address, pd.rx, 0, reads, io);
        lemma_drain_fails(pd.address, pd.rx, 0, reads);
        assert(model::drain(pd.address, pd.rx, 0, reads)->0.rest + io =~= io);
    }
}

/// Draining that does not end by what it reads ends by a read that fails.
proof fn lemma_drain_fails(address: u8, rx: Seq<u8>, reads: nat, io: Seq<IoEvent>)
    requires
        model::drain(address, rx, reads, io) is Some,
        model::drain(address, rx, reads, io)->0.rest.len() == 0,
    ensures
        io.len() > 0,
        feed::delivers(io, feed::bytes_read(io)) || (io.last() matches IoEvent::Read(Err(e)) && {
            let d = model::drain(address, rx, reads, io)->0;
            &&& d.outcome == Err::<Option<CommandFrame>, Error>(e)
            &&& d.rx == if io.len() == 1 {
                rx
            } else {
                model::scan_command(address, rx + feed::bytes_read(io.drop_last())).1
            }
        }),
    decreases io.len(),
{
    let rest = io.drop_first();
    if let IoEvent::Read(Ok(more)) = io[0] {
        let (found, rx1) = model::scan_command(address, rx + more);
        if model::drains_on(found, more, reads + 1) {
            lemma_drain_fails(address, rx1, reads + 1, rest);
            assert(io.last() == rest.last());
            let before = io.drop_last();
            assert(before[0] == io[0]);
            assert(before.drop_first() =~= rest.drop_last());
            assert(rx + feed::bytes_read(before) =~= rx + more + feed::bytes_read(
                rest.drop_last(),
            ));
            laws::lemma_scan_resumes(address, rx + more, feed::bytes_read(rest.drop_last()));
            if rest.len() == 1 {
                assert(rest.drop_last() =~= Seq::<IoEvent>::empty());
                assert(feed::bytes_read(Seq::<IoEvent>::empty()) =~= Seq::<u8>::empty());
                assert(rx + more + feed::bytes_read(rest.drop_last()) =~= rx + more);
            }
            if feed::delivers(rest, feed::bytes_read(rest)) {
                assert forall|i: int| 0 <= i < io.len() implies (#[trigger] io[i]) is Read
                    && io[i]->Read_0 is Ok by {
                    if i > 0 {
                        assert(rest[i - 1] == io[i]);
                    }
                }
            }
        }
    }
}

/// Which reads come before the one that ends draining.
proof fn lemma_drain_goes_on(address: u8, rx: Seq<u8>, reads: nat, io: Seq<IoEvent>, k: int)
    requires
        model::drain(address, rx, reads, io) is Some,
        model::drain(address, rx, reads, io)->0.rest.len() == 0,
        0 <= k < io.len() - 1,
    ensures
        io[k] is Read,
        io[k]->Read_0 is Ok,
        io[k]->Read_0->Ok_0.len() > 0,
        model::scan_command(address, rx + feed::bytes_read(io.take(k + 1))).0 == Ok::<
            Option<CommandFrame>,
            Error,
        >(None),
    decreases io.len(),
{
    let rest = io.drop_first();
    assert(rest.len() > 0);
    let more = io[0]->Read_0->Ok_0;
    let (found, rx1) = model::scan_command(address, rx + more);
    let taken = io.take(k + 1);
    assert(taken[0] == io[0]);
    if k == 0 {
        assert(taken.drop_first() =~= Seq::<IoEvent>::empty());
        assert(feed::bytes_read(Seq::<IoEvent>::empty()) =~= Seq::<u8>::empty());
        assert(feed::bytes_read(taken) =~= more);
    } else {
        lemma_drain_goes_on(address, rx1, reads + 1, rest, k - 1);
        assert(rest[k - 1] == io[k]);
        assert(taken.drop_first() =~= rest.take(k));
        laws::lemma_scan_resumes(address, rx + more, feed::bytes_read(rest.take(k)));
        assert(rx + feed::bytes_read(taken) =~= rx + more + feed::bytes_read(rest.take(k)));
    }
}

/// A poll reads on exactly as long as there is something to read and no command for this PD
/// is complete: every read but the last has brought something, and what had been received by
/// then held no complete command.
pub proof fn law_poll_reads_no_longer_than_it_has_to(
    pd: PdView,
    reads: Seq<IoEvent>,
)
    requires
        model::drain(pd.address, pd.rx, 0, reads) is Some,
        model::drain(pd.address, pd.rx, 0, reads)->0.rest.len() == 0,
    ensures
        reads.len() > 0,
        forall|k: int|
            0 <= k < reads.len() - 1 ==> {
                &&& (#[trigger] reads[k]) is Read
                &&& reads[k]->Read_0 is Ok
                &&& reads[k]->Read_0->Ok_0.len() > 0
                &&& model::scan_command(
                    pd.address,
                    pd.rx + feed::bytes_read(reads.take(k + 1)),
                ).0 == Ok::<Option<CommandFrame>, Error>(None)
            },
{
    lemma_drain_fails(pd.address, pd.rx, 0, reads);
    assert forall|k: int| 0 <= k < reads.len() - 1 implies {
        &&& (#[trigger] reads[k]) is Read
        &&& reads[k]->Read_0 is Ok
        &&& reads[k]->Read_0->Ok_0.len() > 0
        &&& model::scan_command(pd.address, pd.rx + feed::bytes_read(reads.take(k + 1))).0 == Ok::<
            Option<CommandFrame>,
            Error,
        >(None)
    } by {
        lemma_drain_goes_on(pd.address, pd.rx, 0, reads, k);
    }
}

/// What specifications see of a PD driver is all of its state: address, trailer, received
/// bytes, the last number and reply, the identity and the progress of the secure channel. A
/// poll is told by the transport operations that have been added to the record since.
pub proof fn law_driver_is_seen_whole<T: Transport, C: Clock, H: PdHandler, K: PdSecureKeyProvider>(
    before: Pd<T, C, H, K>,
    pd: Pd<T, C, H, K>,
)
    ensures
        pd@.address == pd.address,
        pd@.use_crc == pd.use_crc,
        pd@.rx == pd.rx_buf@,
        pd@.last_sqn == pd.last_sqn,
        match pd.last_reply {
            Some(reply) => pd@.last_reply == Some(reply@),
            None => pd@.last_reply is None,
        },
        match pd.secure_config {
            Some(config) => pd@.config == Some(config.cuid@),
            None => pd@.config is None,
        },
        match pd.secure_state {
            Some(PdSecureState::Disconnected(session)) => pd@.secure == Some(
                PdSecureView::Disconnected(session@),
            ),
            Some(PdSecureState::Challenged { session, key }) => pd@.secure == Some(
                PdSecureView::Challenged { session: session@, key },
            ),
            Some(PdSecureState::Secure(session)) => pd@.secure == Some(
                PdSecureView::Secure(session@),
            ),
            None => pd@.secure is None,
        },
        pd.follows(before) ==> pd.transport.log() == before.transport.log() + pd.io_since(before),
        pd.polled(before) == model::poll(before@, pd.answers@, pd.io_since(before)),
{
    if pd.follows(before) {
        assert(pd.transport.log() =~= before.transport.log() + pd.io_since(before));
    }
}

/// What the handler does for one command: it is asked for the key first, then for the random
/// challenge, each only where nobody else supplies it, and for the reply last. A key or a
/// challenge that it does not have leaves no trace, and nothing else does either.
pub proof fn law_handler_is_asked_in_order(
    asked: Asked,
    answers: Answers,
    own_keys: bool,
    own_random: bool,
)
    ensures
        ({
            let done = model::handler_events(asked, answers, own_keys, own_random);
            let keys = if own_keys && asked.key is Some && answers.key is Some {
                1int
            } else {
                0
            };
            let drawn = if own_random && asked.random && answers.random is Ok {
                1int
            } else {
                0
            };
            let replies = if asked.command is Some {
                1int
            } else {
                0
            };
            &&& done.len() == keys + drawn + replies
            &&& keys == 1 ==> done[0] == HandlerEvent::Key(asked.key->0, answers.key->0)
            &&& drawn == 1 ==> done[keys] == HandlerEvent::Random(answers.random->Ok_0)
            &&& replies == 1 ==> done.last() == HandlerEvent::Replied(
                asked.command->0,
                answers.reply,
            )
        }),
{
    reveal(model::handler_events);
}

} // verus!
