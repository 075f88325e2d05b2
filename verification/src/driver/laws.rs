//! What holds of the two drivers together.

use vstd::prelude::*;

use crate::bytes;
use crate::command;
use crate::command::{CommandCode, CommandView};
use crate::driver::acu;
use crate::driver::acu::model::{ExchangeView, Heard, Limits, Ran};
use crate::driver::acu::state::{
    AcuSecureKey, AcuSecureKeyMaterial, AcuSecureView, PdStateView,
};
use crate::driver::acu::steps::ReplyFrame;
use crate::driver::feed::{self, Feed};
use crate::driver::pd;
use crate::driver::pd::model::{Answers, Asked, PdView, Polled};
use crate::driver::pd::state::{PdSecureKey, PdSecureView};
use crate::driver::pd::steps::CommandFrame;
use crate::error::Error;
use crate::packet::codec;
use crate::packet::codec::PacketView;
use crate::packet::control;
use crate::packet::control::{Address, ControlByte, CtrlFlags, Sqn, BROADCAST_ADDR};
use crate::packet::scb::{ScbView, ScsType, SCS14_STATUS_SUCCESS};
use crate::reply;
use crate::reply::ReplyView;
use crate::secure::frame;
use crate::secure::session;
use crate::secure::session::{ChallengedView, CryptogrammedView, PdChallengedView, SecureView};
use crate::transport::IoEvent;
use crate::SOM;

verus! {

/// The same key, as the PD names it.
pub open spec fn as_pd_key(key: AcuSecureKey) -> PdSecureKey {
    match key {
        AcuSecureKey::Scbk => PdSecureKey::Scbk,
        AcuSecureKey::ScbkD => PdSecureKey::ScbkD,
    }
}

/// A poll in which the PD reads `command` and writes `reply`.
pub open spec fn read_and_reply(command: Seq<u8>, reply: Seq<u8>) -> Seq<IoEvent> {
    seq![IoEvent::Read(Ok(command)), IoEvent::Write(reply, Ok(()))]
}

/// A handshake command that the ACU sends is found by the PD.
proof fn lemma_handshake_command_arrives(
    address: u8,
    use_crc: bool,
    sqn: Sqn,
    scs: ScsType,
    key: AcuSecureKey,
    cmd: CommandView,
) -> (f: CommandFrame)
    requires
        address <= BROADCAST_ADDR,
        !scs.spec_has_mac(),
        cmd.data() is Ok,
        cmd.data()->Ok_0.len() <= 16,
    ensures
        ({
            let sent = acu::steps::handshake_request(address, use_crc, sqn, scs, key, cmd);
            &&& sent is Ok
            &&& pd::model::scan_command(address, sent->Ok_0) == (
                Ok::<Option<CommandFrame>, Error>(Some(f)),
                Seq::<u8>::empty(),
            )
        }),
        f.code == cmd.code(),
        f.sqn == sqn,
        f.scb == Some(ScbView { ty: scs, data: key.scb_data() }),
        f.data == cmd.data()->Ok_0,
{
    let p = PacketView {
        addr: Address { byte: address },
        ctrl: ControlByte { sqn, flags: CtrlFlags { use_crc, has_scb: true } },
        scb: Some(ScbView { ty: scs, data: key.scb_data() }),
        code: cmd.code().spec_byte(),
        data: cmd.data()->Ok_0,
        mac: None,
    };
    let empty = Seq::<u8>::empty();
    assert(codec::frame_well_formed(p));
    pd::laws::law_command_is_found_behind_noise(address, empty, p, cmd.code(), empty);
    assert(empty + codec::frame_bytes(p) + empty =~= codec::frame_bytes(p));
    CommandFrame {
        code: cmd.code(),
        sqn,
        scb: p.scb,
        data: p.data,
        raw: codec::frame_bytes(p),
    }
}

/// A handshake reply that the PD sends is found by the ACU.
proof fn lemma_handshake_reply_arrives(
    address: u8,
    use_crc: bool,
    sqn: Sqn,
    scb: ScbView,
    answer: ReplyView,
) -> (f: ReplyFrame)
    requires
        address <= BROADCAST_ADDR,
        !scb.ty.spec_has_mac(),
        scb.data.len() == 1,
        answer.data().len() <= 32,
    ensures
        ({
            let sent = pd::steps::handshake_reply(address, use_crc, sqn, scb, answer);
            &&& sent is Ok
            &&& acu::model::scan_reply(sent->Ok_0) == (
                Ok::<Option<ReplyFrame>, Error>(Some(f)),
                Seq::<u8>::empty(),
            )
        }),
        f.code == answer.code(),
        f.sqn == sqn,
        f.scb == Some(scb),
        f.data == answer.data(),
{
    let p = PacketView {
        addr: Address { byte: (address + 0x80) as u8 },
        ctrl: ControlByte { sqn, flags: CtrlFlags { use_crc, has_scb: true } },
        scb: Some(scb),
        code: answer.code().spec_byte(),
        data: answer.data(),
        mac: None,
    };
    let empty = Seq::<u8>::empty();
    assert(codec::frame_well_formed(p));
    acu::laws::law_reply_is_found_behind_noise(empty, p, answer.code(), empty);
    assert(empty + codec::frame_bytes(p) + empty =~= codec::frame_bytes(p));
    ReplyFrame {
        code: answer.code(),
        sqn,
        scb: Some(scb),
        data: p.data,
        raw: codec::frame_bytes(p),
    }
}

/// A poll that reads one command acts upon it.
pub proof fn law_poll_acts_upon_command(
    dev: PdView,
    answers: Answers,
    command: Seq<u8>,
    f: CommandFrame,
    rx: Seq<u8>,
    io: Seq<IoEvent>,
)
    requires
        pd::model::scan_command(dev.address, dev.rx + command) == (
            Ok::<Option<CommandFrame>, Error>(Some(f)),
            rx,
        ),
    ensures
        pd::model::poll(dev, answers, seq![IoEvent::Read(Ok(command))] + io) == pd::model::act(
            PdView { rx, ..dev },
            f,
            answers,
            io,
        ),
{
    reveal(pd::model::poll);
    let all = seq![IoEvent::Read(Ok(command))] + io;
    assert(all[0] == IoEvent::Read(Ok::<Seq<u8>, Error>(command)));
    assert(all.drop_first() =~= io);
}

/// A poll of a PD that has consumed everything, which reads one command and writes the
/// reply to it.
proof fn lemma_poll_acts(
    dev: PdView,
    answers: Answers,
    command: Seq<u8>,
    f: CommandFrame,
    reply: Seq<u8>,
)
    requires
        dev.rx.len() == 0,
        pd::model::scan_command(dev.address, command) == (
            Ok::<Option<CommandFrame>, Error>(Some(f)),
            Seq::<u8>::empty(),
        ),
    ensures
        pd::model::poll(dev, answers, read_and_reply(command, reply)) == pd::model::act(
            dev,
            f,
            answers,
            seq![IoEvent::Write(reply, Ok(()))],
        ),
{
    let write = seq![IoEvent::Write(reply, Ok::<(), Error>(()))];
    assert(dev.rx + command =~= command);
    assert(dev.rx =~= Seq::<u8>::empty());
    law_poll_acts_upon_command(dev, answers, command, f, Seq::empty(), write);
    assert(read_and_reply(command, reply) =~= seq![IoEvent::Read(Ok(command))] + write);
}

/// The reply of a handshake step goes out.
proof fn lemma_reply_goes_out(dev: PdView, sqn: Sqn, reply: Seq<u8>, asked: Asked)
    ensures
        pd::model::reply_with(dev, sqn, reply, asked, seq![IoEvent::Write(reply, Ok(()))]) == Some(
            Polled {
                outcome: Ok(true),
                pd: PdView { last_sqn: Some(sqn), last_reply: Some(reply), ..dev },
                asked,
                rest: Seq::empty(),
            },
        ),
{
    let write = seq![IoEvent::Write(reply, Ok::<(), Error>(()))];
    assert(write[0] == IoEvent::Write(reply, Ok::<(), Error>(())));
    assert(write.drop_first() =~= Seq::<IoEvent>::empty());
}

/// The PD's part of a challenge.
proof fn lemma_pd_answers_challenge(
    dev: PdView,
    f: CommandFrame,
    key: PdSecureKey,
    scbk: Seq<u8>,
    answers: Answers,
    reply: Seq<u8>,
)
    requires
        dev.config is Some,
        dev.last_sqn != Some(f.sqn),
        f.is_challenge(),
        f.scb->0.data == key.scb_data(),
        f.data.len() == 8,
        answers.key == Some(scbk),
        answers.random is Ok,
        ({
            let session = PdChallengedView {
                scbk,
                rnd_a: f.data,
                rnd_b: answers.random->Ok_0,
                cuid: dev.config->0,
            };
            pd::steps::handshake_reply(
                dev.address,
                dev.use_crc,
                f.sqn,
                ScbView { ty: ScsType::Scs12, data: key.scb_data() },
                ReplyView::CCrypt(session::ccrypt_of(session)),
            ) == Ok::<Seq<u8>, Error>(reply)
        }),
    ensures
        ({
            let session = PdChallengedView {
                scbk,
                rnd_a: f.data,
                rnd_b: answers.random->Ok_0,
                cuid: dev.config->0,
            };
            pd::model::act(dev, f, answers, seq![IoEvent::Write(reply, Ok(()))]) == Some(
                Polled {
                    outcome: Ok(true),
                    pd: PdView {
                        last_sqn: Some(f.sqn),
                        last_reply: Some(reply),
                        secure: Some(PdSecureView::Challenged { session, key }),
                        ..dev
                    },
                    asked: Asked { key: Some(key), random: true, command: None },
                    rest: Seq::empty(),
                },
            )
        }),
{
    reveal(pd::model::answer);
    let session = PdChallengedView {
        scbk,
        rnd_a: f.data,
        rnd_b: answers.random->Ok_0,
        cuid: dev.config->0,
    };
    pd::state::law_key_selector_round_trip(key);
    lemma_reply_goes_out(
        PdView { secure: Some(PdSecureView::Challenged { session, key }), ..dev },
        f.sqn,
        reply,
        Asked { key: Some(key), random: true, command: None },
    );
}

/// A challenge by the ACU is answered by a PD whose application has the key: the PD asks
/// for that key and for a random challenge, and for nothing else. The ACU accepts the
/// answer.
pub proof fn law_challenge_is_answered(
    state: PdStateView,
    dev: PdView,
    key: AcuSecureKey,
    scbk: Seq<u8>,
    rnd_a: Seq<u8>,
    answers: Answers,
) -> (r: (Seq<u8>, ReplyFrame))
    requires
        dev.address <= BROADCAST_ADDR,
        dev.config is Some,
        dev.config->0.len() == 8,
        dev.rx.len() == 0,
        dev.last_sqn != Some(state.next_sqn),
        rnd_a.len() == 8,
        answers.key == Some(scbk),
        answers.random is Ok,
        answers.random->Ok_0.len() == 8,
    ensures
        ({
            let (reply, frame) = r;
            let rnd_b = answers.random->Ok_0;
            let session = PdChallengedView { scbk, rnd_a, rnd_b, cuid: dev.config->0 };
            let sent = acu::steps::handshake_request(
                dev.address,
                state.use_crc,
                state.next_sqn,
                ScsType::Scs11,
                key,
                CommandView::Chlng { rnd_a },
            );
            &&& sent is Ok
            &&& pd::model::poll(dev, answers, read_and_reply(sent->Ok_0, reply)) == Some(
                Polled {
                    outcome: Ok(true),
                    pd: PdView {
                        last_sqn: Some(state.next_sqn),
                        last_reply: Some(reply),
                        secure: Some(PdSecureView::Challenged { session, key: as_pd_key(key) }),
                        ..dev
                    },
                    asked: Asked { key: Some(as_pd_key(key)), random: true, command: None },
                    rest: Seq::empty(),
                },
            )
            &&& acu::model::scan_reply(reply) == (
                Ok::<Option<ReplyFrame>, Error>(Some(frame)),
                Seq::<u8>::empty(),
            )
            &&& acu::steps::judge_ccrypt(
                state.with_secure(
                    Some(
                        AcuSecureView::Challenged { session: ChallengedView { scbk, rnd_a }, key },
                    ),
                ),
                frame,
            ) == (
                Ok::<(), Error>(()),
                state.with_secure(
                    Some(
                        AcuSecureView::Cryptogrammed {
                            session: CryptogrammedView { scbk, rnd_a, rnd_b },
                            key,
                        },
                    ),
                ),
            )
        }),
{
    let cmd = CommandView::Chlng { rnd_a };
    let f = lemma_handshake_command_arrives(
        dev.address,
        state.use_crc,
        state.next_sqn,
        ScsType::Scs11,
        key,
        cmd,
    );
    let sent = acu::steps::handshake_request(
        dev.address,
        state.use_crc,
        state.next_sqn,
        ScsType::Scs11,
        key,
        cmd,
    )->Ok_0;
    let rnd_b = answers.random->Ok_0;
    let session = PdChallengedView { scbk, rnd_a, rnd_b, cuid: dev.config->0 };
    let answer = ReplyView::CCrypt(session::ccrypt_of(session));
    let scb = ScbView { ty: ScsType::Scs12, data: as_pd_key(key).scb_data() };
    let frame = lemma_handshake_reply_arrives(
        dev.address,
        dev.use_crc,
        state.next_sqn,
        scb,
        answer,
    );
    let reply = pd::steps::handshake_reply(
        dev.address,
        dev.use_crc,
        state.next_sqn,
        scb,
        answer,
    )->Ok_0;
    lemma_poll_acts(dev, answers, sent, f, reply);
    lemma_pd_answers_challenge(dev, f, as_pd_key(key), scbk, answers, reply);
    reply::law_reply_round_trip(answer);
    session::law_handshake_agrees(scbk, rnd_a, rnd_b, dev.config->0);
    (reply, frame)
}

/// The PD's part of a server cryptogram.
proof fn lemma_pd_answers_proof(
    dev: PdView,
    f: CommandFrame,
    session: PdChallengedView,
    key: PdSecureKey,
    answers: Answers,
    reply: Seq<u8>,
)
    requires
        dev.config is Some,
        dev.last_sqn != Some(f.sqn),
        dev.secure == Some(PdSecureView::Challenged { session, key }),
        f.is_proof(),
        f.scb->0.data == key.scb_data(),
        f.data == session::server_cryptogram(
            session::derive_keys(session.scbk, session.rnd_a),
            session.rnd_a,
            session.rnd_b,
        ),
        pd::steps::handshake_reply(
            dev.address,
            dev.use_crc,
            f.sqn,
            ScbView { ty: ScsType::Scs14, data: SCS14_STATUS_SUCCESS@ },
            ReplyView::RMacI {
                r_mac_i: session::initial_rmac(
                    session::derive_keys(session.scbk, session.rnd_a),
                    session.rnd_a,
                    session.rnd_b,
                ),
            },
        ) == Ok::<Seq<u8>, Error>(reply),
    ensures
        pd::model::act(dev, f, answers, seq![IoEvent::Write(reply, Ok(()))]) == Some(
            Polled {
                outcome: Ok(true),
                pd: PdView {
                    last_sqn: Some(f.sqn),
                    last_reply: Some(reply),
                    secure: Some(
                        PdSecureView::Secure(
                            session::established(session.scbk, session.rnd_a, session.rnd_b),
                        ),
                    ),
                    ..dev
                },
                asked: Asked::nothing(),
                rest: Seq::empty(),
            },
        ),
{
    reveal(pd::model::answer);
    pd::state::law_key_selector_round_trip(key);
    lemma_reply_goes_out(
        PdView {
            secure: Some(
                PdSecureView::Secure(
                    session::established(session.scbk, session.rnd_a, session.rnd_b),
                ),
            ),
            ..dev
        },
        f.sqn,
        reply,
        Asked::nothing(),
    );
}

/// The server cryptogram of an ACU that accepted the PD's is accepted by the PD, which asks
/// its application for nothing. The ACU accepts the initial R-MAC that the PD answers with.
/// Both are then at the same session.
pub proof fn law_proof_is_accepted(
    state: PdStateView,
    dev: PdView,
    key: AcuSecureKey,
    session: PdChallengedView,
    answers: Answers,
) -> (r: (Seq<u8>, ReplyFrame))
    requires
        dev.address <= BROADCAST_ADDR,
        dev.config is Some,
        dev.rx.len() == 0,
        dev.last_sqn != Some(state.next_sqn),
        dev.secure == Some(PdSecureView::Challenged { session, key: as_pd_key(key) }),
    ensures
        ({
            let (reply, frame) = r;
            let acu_session = CryptogrammedView {
                scbk: session.scbk,
                rnd_a: session.rnd_a,
                rnd_b: session.rnd_b,
            };
            let both = session::established(session.scbk, session.rnd_a, session.rnd_b);
            let sent = acu::steps::handshake_request(
                dev.address,
                state.use_crc,
                state.next_sqn,
                ScsType::Scs13,
                key,
                CommandView::SCrypt {
                    server_cryptogram: session::server_cryptogram(
                        session::derive_keys(session.scbk, session.rnd_a),
                        session.rnd_a,
                        session.rnd_b,
                    ),
                },
            );
            &&& sent is Ok
            &&& pd::model::poll(dev, answers, read_and_reply(sent->Ok_0, reply)) == Some(
                Polled {
                    outcome: Ok(true),
                    pd: PdView {
                        last_sqn: Some(state.next_sqn),
                        last_reply: Some(reply),
                        secure: Some(PdSecureView::Secure(both)),
                        ..dev
                    },
                    asked: Asked::nothing(),
                    rest: Seq::empty(),
                },
            )
            &&& acu::model::scan_reply(reply) == (
                Ok::<Option<ReplyFrame>, Error>(Some(frame)),
                Seq::<u8>::empty(),
            )
            &&& acu::steps::judge_rmac_i(
                state.with_secure(
                    Some(AcuSecureView::Cryptogrammed { session: acu_session, key }),
                ),
                frame,
            ) == (
                Ok::<(), Error>(()),
                state.with_secure(Some(AcuSecureView::Secure(both))),
            )
        }),
{
    let keys = session::derive_keys(session.scbk, session.rnd_a);
    let cmd = CommandView::SCrypt {
        server_cryptogram: session::server_cryptogram(keys, session.rnd_a, session.rnd_b),
    };
    let f = lemma_handshake_command_arrives(
        dev.address,
        state.use_crc,
        state.next_sqn,
        ScsType::Scs13,
        key,
        cmd,
    );
    let sent = acu::steps::handshake_request(
        dev.address,
        state.use_crc,
        state.next_sqn,
        ScsType::Scs13,
        key,
        cmd,
    )->Ok_0;
    let answer = ReplyView::RMacI {
        r_mac_i: session::initial_rmac(keys, session.rnd_a, session.rnd_b),
    };
    let scb = ScbView { ty: ScsType::Scs14, data: SCS14_STATUS_SUCCESS@ };
    let frame = lemma_handshake_reply_arrives(
        dev.address,
        dev.use_crc,
        state.next_sqn,
        scb,
        answer,
    );
    let reply = pd::steps::handshake_reply(
        dev.address,
        dev.use_crc,
        state.next_sqn,
        scb,
        answer,
    )->Ok_0;
    lemma_poll_acts(dev, answers, sent, f, reply);
    lemma_pd_answers_proof(dev, f, session, as_pd_key(key), answers, reply);
    (reply, frame)
}

/// An ACU that has consumed everything hears a reply that is read in one piece.
proof fn lemma_reply_is_heard(reply: Seq<u8>, frame: ReplyFrame, delay: u32, feed: Feed)
    requires
        acu::model::scan_reply(reply) == (
            Ok::<Option<ReplyFrame>, Error>(Some(frame)),
            Seq::<u8>::empty(),
        ),
        feed.clock.len() > 0,
        feed.io.len() > 0,
        feed.io[0] == IoEvent::Read(Ok::<Seq<u8>, Error>(reply)),
    ensures
        acu::model::hear(Seq::empty(), delay, feed) == Some(
            Heard {
                outcome: Ok(frame),
                rx: Seq::empty(),
                rest: feed.after_clock().after_io(),
            },
        ),
{
    let nothing = Seq::<u8>::empty();
    assert(acu::model::scan_reply(nothing) == (Ok::<Option<ReplyFrame>, Error>(None), nothing));
    assert(nothing + reply =~= reply);
    assert(feed.after_clock().io[0] == feed.io[0]);
}

/// The events of a handshake, as the ACU sees them.
pub open spec fn handshake_events(
    scs11: Seq<u8>,
    scs12: Seq<u8>,
    scs13: Seq<u8>,
    scs14: Seq<u8>,
    clock: Seq<u64>,
) -> Feed {
    Feed {
        io: seq![
            IoEvent::Write(scs11, Ok(())),
            IoEvent::Read(Ok(scs12)),
            IoEvent::Write(scs13, Ok(())),
            IoEvent::Read(Ok(scs14)),
        ],
        clock,
    }
}

/// Two drivers that hold the same key establish the secure channel. The ACU writes two
/// frames and reads two; the PD reads each of the ACU's frames in a poll and writes the one
/// that the ACU then reads. Both end with the same session, and the ACU's sequence number
/// has advanced twice.
///
/// The four frames are returned.
#[verifier::rlimit(60)]
pub proof fn law_drivers_establish_secure_channel(
    state: PdStateView,
    dev: PdView,
    material: AcuSecureKeyMaterial,
    rnd_a: Seq<u8>,
    answers: Answers,
    later: Answers,
    delay: u32,
    clock: Seq<u64>,
) -> (frames: (Seq<u8>, Seq<u8>, Seq<u8>, Seq<u8>))
    requires
        dev.address <= BROADCAST_ADDR,
        dev.config is Some,
        dev.config->0.len() == 8,
        dev.rx.len() == 0,
        dev.last_sqn != Some(state.next_sqn),
        rnd_a.len() == 8,
        answers.key == Some(material.scbk@),
        answers.random is Ok,
        answers.random->Ok_0.len() == 8,
        clock.len() == 4,
    ensures
        ({
            let (scs11, scs12, scs13, scs14) = frames;
            let both = session::established(material.scbk@, rnd_a, answers.random->Ok_0);
            let first = pd::model::poll(dev, answers, read_and_reply(scs11, scs12));
            let second = pd::model::poll(first->0.pd, later, read_and_reply(scs13, scs14));
            &&& acu::model::establish(
                dev.address,
                state,
                Some(material),
                Ok(rnd_a),
                Seq::empty(),
                delay,
                handshake_events(scs11, scs12, scs13, scs14, clock),
            ) == Some(
                Ran {
                    outcome: Ok(()),
                    pd: state.seen_at(clock[3]).bumped().bumped().with_secure(
                        Some(AcuSecureView::Secure(both)),
                    ),
                    rx: Seq::empty(),
                    rest: Feed::nothing(),
                },
            )
            &&& first is Some
            &&& first->0.outcome == Ok::<bool, Error>(true)
            &&& first->0.asked.command is None
            &&& second is Some
            &&& second->0.outcome == Ok::<bool, Error>(true)
            &&& second->0.asked == Asked::nothing()
            &&& second->0.pd.secure == Some(PdSecureView::Secure(both))
        }),
{
    let scbk = material.scbk@;
    let key = material.selection;
    let rnd_b = answers.random->Ok_0;
    let scs11 = acu::steps::handshake_request(
        dev.address,
        state.use_crc,
        state.next_sqn,
        ScsType::Scs11,
        key,
        CommandView::Chlng { rnd_a },
    )->Ok_0;
    let (scs12, answer) = law_challenge_is_answered(state, dev, key, scbk, rnd_a, answers);
    let challenged = state.with_secure(
        Some(AcuSecureView::Challenged { session: ChallengedView { scbk, rnd_a }, key }),
    );
    let state1 = state.seen_at(clock[1]).bumped();
    let dev1 = pd::model::poll(dev, answers, read_and_reply(scs11, scs12))->0.pd;
    let session = PdChallengedView { scbk, rnd_a, rnd_b, cuid: dev.config->0 };
    let cryptogrammed = state1.with_secure(
        Some(
            AcuSecureView::Cryptogrammed {
                session: CryptogrammedView { scbk, rnd_a, rnd_b },
                key,
            },
        ),
    );
    control::law_sqn_cycle(state.next_sqn);
    let (scs14, confirmation) = law_proof_is_accepted(state1, dev1, key, session, later);
    let scs13 = acu::steps::handshake_request(
        dev.address,
        state1.use_crc,
        state1.next_sqn,
        ScsType::Scs13,
        key,
        CommandView::SCrypt {
            server_cryptogram: session::server_cryptogram(
                session::derive_keys(scbk, rnd_a),
                rnd_a,
                rnd_b,
            ),
        },
    )->Ok_0;
    let nothing = Seq::<u8>::empty();
    let all = handshake_events(scs11, scs12, scs13, scs14, clock);
    let a = all.after_io();
    let b = a.after_clock().after_io().after_clock();
    let c = b.after_io();
    assert(all.io[0] == IoEvent::Write(scs11, Ok::<(), Error>(())));
    assert(a.io[0] == IoEvent::Read(Ok::<Seq<u8>, Error>(scs12)));
    assert(b.io[0] == IoEvent::Write(scs13, Ok::<(), Error>(())));
    assert(c.io[0] == IoEvent::Read(Ok::<Seq<u8>, Error>(scs14)));
    assert(a.clock == clock && b.clock[0] == clock[2] && c.clock[0] == clock[2]);
    lemma_reply_is_heard(scs12, answer, delay, a);
    lemma_reply_is_heard(scs14, confirmation, delay, c);
    assert(a.after_clock().after_io().clock[0] == clock[1]);
    assert(c.after_clock().after_io().clock[0] == clock[3]);
    assert(c.after_clock().after_io().after_clock() =~= Feed::nothing());
    assert(acu::model::request_challenge(
        dev.address,
        state,
        Some(material),
        Ok(rnd_a),
        nothing,
        all,
    ) == Some(Ran { outcome: Ok(scs11), pd: challenged, rx: nothing, rest: a }));
    assert(acu::model::receive_ccrypt(challenged, nothing, delay, a) == Some(
        Ran { outcome: Ok(()), pd: cryptogrammed, rx: nothing, rest: b },
    ));
    assert(acu::model::send_scrypt(dev.address, cryptogrammed, nothing, b) == Some(
        Ran { outcome: Ok(scs13), pd: cryptogrammed, rx: nothing, rest: c },
    ));
    (scs11, scs12, scs13, scs14)
}

/// A sealed command is found by the PD it is sent to.
#[verifier::rlimit(50)]
proof fn lemma_sealed_command_is_found(
    address: u8,
    s: SecureView,
    sqn: Sqn,
    code: CommandCode,
    data: Seq<u8>,
) -> (f: CommandFrame)
    requires
        address <= BROADCAST_ADDR,
        frame::seal_frame(
            s,
            Address { byte: address },
            sqn,
            frame::Direction::AcuToPd,
            data.len() > 0,
            code.spec_byte(),
            data,
        ) is Ok,
    ensures
        ({
            let (t, raw) = frame::seal_frame(
                s,
                Address { byte: address },
                sqn,
                frame::Direction::AcuToPd,
                data.len() > 0,
                code.spec_byte(),
                data,
            )->Ok_0;
            &&& pd::model::scan_command(address, raw) == (
                Ok::<Option<CommandFrame>, Error>(Some(f)),
                Seq::<u8>::empty(),
            )
            &&& f.well_formed()
            &&& f.raw == raw
            &&& f.sqn == sqn
            &&& f.code == code
            &&& f.is_secured()
        }),
{
    let empty = Seq::<u8>::empty();
    let q = frame::lemma_sealed_frame(
        s,
        Address { byte: address },
        sqn,
        frame::Direction::AcuToPd,
        data.len() > 0,
        code.spec_byte(),
        data,
    );
    let raw = codec::frame_bytes(q);
    let f = CommandFrame { code, sqn, scb: q.scb, data: q.data, raw };
    assert(CommandCode::spec_from_byte(q.code) == Ok::<CommandCode, Error>(code)) by {
        command::law_command_code_round_trip(code, 0);
    }
    assert(f.well_formed());
    assert(q.addr.spec_pd_addr() == address);
    assert(pd::model::scan_command(address, raw) == (
        Ok::<Option<CommandFrame>, Error>(Some(f)),
        empty,
    )) by {
        pd::laws::law_command_is_found_behind_noise(address, empty, q, code, empty);
        assert(empty + raw + empty =~= raw);
    }
    f
}

/// A command that the ACU secures under its session is found by the PD it is sent to. If the
/// frame opens under that session, as every frame does that the ACU seals, a PD at the same
/// session gets exactly the command, and its session follows the ACU's.
pub proof fn law_secured_command_arrives(
    address: u8,
    state: PdStateView,
    s: SecureView,
    sqn: Sqn,
    cmd: CommandView,
) -> (f: CommandFrame)
    requires
        address <= BROADCAST_ADDR,
        cmd.well_formed(),
        state.secure == Some(AcuSecureView::Secure(s)),
        acu::steps::secure_request(address, state, sqn, cmd).0 is Ok,
    ensures
        ({
            let (raw, after) = acu::steps::secure_request(address, state, sqn, cmd);
            let data = cmd.data()->Ok_0;
            &&& pd::model::scan_command(address, raw->Ok_0) == (
                Ok::<Option<CommandFrame>, Error>(Some(f)),
                Seq::<u8>::empty(),
            )
            &&& f.well_formed()
            &&& f.raw == raw->Ok_0
            &&& f.sqn == sqn
            &&& f.code == cmd.code()
            &&& f.is_secured()
            &&& after.is_secure()
            &&& frame::opens_to(s, raw->Ok_0, after.session()->0, data)
                ==> pd::steps::open_command(Some(PdSecureView::Secure(s)), f) == (
                Ok::<Seq<u8>, Error>(data),
                Some(PdSecureView::Secure(after.session()->0)),
            )
            &&& command::command_decode(f.code, data) == Ok::<CommandView, Error>(cmd)
        }),
{
    let data = cmd.data()->Ok_0;
    let f = lemma_sealed_command_is_found(address, s, sqn, cmd.code(), data);
    assert(command::command_decode(f.code, data) == Ok::<CommandView, Error>(cmd)) by {
        command::law_command_round_trip(cmd);
    }
    f
}

/// A reply that the PD secures under its session is found by the ACU. If the frame opens
/// under that session, as every frame does that the PD seals, an ACU at the same session
/// gets exactly the reply, and its session follows the PD's.
pub proof fn law_secured_reply_arrives(
    address: u8,
    use_crc: bool,
    state: PdStateView,
    s: SecureView,
    sqn: Sqn,
    answer: ReplyView,
) -> (f: ReplyFrame)
    requires
        answer.well_formed(),
        state.secure == Some(AcuSecureView::Secure(s)),
        pd::steps::secure_reply(
            address,
            use_crc,
            Some(PdSecureView::Secure(s)),
            sqn,
            answer,
        ).0 is Ok,
    ensures
        ({
            let (raw, after) = pd::steps::secure_reply(
                address,
                use_crc,
                Some(PdSecureView::Secure(s)),
                sqn,
                answer,
            );
            &&& acu::model::scan_reply(raw->Ok_0) == (
                Ok::<Option<ReplyFrame>, Error>(Some(f)),
                Seq::<u8>::empty(),
            )
            &&& f.well_formed()
            &&& f.raw == raw->Ok_0
            &&& f.sqn == sqn
            &&& f.code == answer.code()
            &&& after matches Some(PdSecureView::Secure(t)) && (frame::opens_to(
                s,
                raw->Ok_0,
                t,
                answer.data(),
            ) ==> acu::steps::open_reply(state, f) == (
                Ok::<Seq<u8>, Error>(answer.data()),
                state.with_secure(Some(AcuSecureView::Secure(t))),
            ))
            &&& reply::reply_decode(f.code, answer.data()) == Ok::<ReplyView, Error>(answer)
        }),
{
    let (raw, after) = pd::steps::secure_reply(
        address,
        use_crc,
        Some(PdSecureView::Secure(s)),
        sqn,
        answer,
    );
    let empty = Seq::<u8>::empty();
    let q = frame::lemma_sealed_frame(
        s,
        control::reply_address(address)->Ok_0,
        sqn,
        frame::Direction::PdToAcu,
        answer.data().len() > 0,
        answer.code().spec_byte(),
        answer.data(),
    );
    acu::laws::law_reply_is_found_behind_noise(empty, q, answer.code(), empty);
    assert(empty + codec::frame_bytes(q) + empty =~= codec::frame_bytes(q));
    reply::law_reply_round_trip(answer);
    reply::law_reply_code_round_trip(answer.code(), 0);
    ReplyFrame {
        code: answer.code(),
        sqn,
        scb: q.scb,
        data: q.data,
        raw: raw->Ok_0,
    }
}

/// The PD's part of an exchange.
proof fn lemma_pd_answers_command(
    dev: PdView,
    f: CommandFrame,
    cmd: CommandView,
    data: Seq<u8>,
    opened: Option<PdSecureView>,
    answers: Answers,
    reply: Seq<u8>,
    after: Option<PdSecureView>,
)
    requires
        dev.last_sqn != Some(f.sqn),
        !f.is_challenge(),
        !f.is_proof(),
        pd::steps::open_command(dev.secure, f) == (Ok::<Seq<u8>, Error>(data), opened),
        command::command_decode(f.code, data) == Ok::<CommandView, Error>(cmd),
        pd::steps::secure_reply(dev.address, dev.use_crc, opened, f.sqn, answers.reply) == (
            Ok::<Seq<u8>, Error>(reply),
            after,
        ),
    ensures
        pd::model::act(dev, f, answers, seq![IoEvent::Write(reply, Ok(()))]) == Some(
            Polled {
                outcome: Ok(true),
                pd: PdView {
                    last_sqn: Some(f.sqn),
                    last_reply: Some(reply),
                    secure: after,
                    ..dev
                },
                asked: Asked { key: None, random: false, command: Some(cmd) },
                rest: Seq::empty(),
            },
        ),
{
    reveal(pd::model::answer);
    lemma_reply_goes_out(
        PdView { secure: after, ..dev },
        f.sqn,
        reply,
        Asked { key: None, random: false, command: Some(cmd) },
    );
}

/// The ACU's part of an exchange.
proof fn lemma_acu_takes_answer(
    address: u8,
    state: PdStateView,
    cmd: CommandView,
    limits: Limits,
    sent: Seq<u8>,
    after: PdStateView,
    reply: Seq<u8>,
    frame: ReplyFrame,
    answer: ReplyView,
    last: PdStateView,
    clock: Seq<u64>,
)
    requires
        clock.len() == 3,
        !state.is_offline(clock[0]),
        acu::steps::request(address, state, state.next_sqn, cmd) == (
            Ok::<Seq<u8>, Error>(sent),
            after,
        ),
        acu::model::scan_reply(reply) == (
            Ok::<Option<ReplyFrame>, Error>(Some(frame)),
            Seq::<u8>::empty(),
        ),
        frame.sqn == state.next_sqn,
        acu::steps::open_reply(after, frame) == (Ok::<Seq<u8>, Error>(answer.data()), last),
        reply::reply_decode(frame.code, answer.data()) == Ok::<ReplyView, Error>(answer),
    ensures
        acu::model::exchange(
            address,
            state,
            cmd,
            Seq::empty(),
            limits,
            Feed {
                io: seq![IoEvent::Write(sent, Ok(())), IoEvent::Read(Ok(reply))],
                clock,
            },
        ) == Some(
            Ran {
                outcome: Ok(
                    if answer is Busy {
                        ExchangeView::Busy
                    } else {
                        ExchangeView::Reply(answer)
                    },
                ),
                pd: if answer is Busy {
                    last.seen_at(clock[2])
                } else {
                    last.seen_at(clock[2]).bumped()
                },
                rx: Seq::empty(),
                rest: Feed::nothing(),
            },
        ),
{
    reveal(acu::model::try_once);
    let nothing = Seq::<u8>::empty();
    let all = Feed {
        io: seq![IoEvent::Write(sent, Ok::<(), Error>(())), IoEvent::Read(Ok(reply))],
        clock,
    };
    let a = all.after_clock();
    let b = a.after_io();
    assert(a.io[0] == IoEvent::Write(sent, Ok::<(), Error>(())));
    assert(b.io[0] == IoEvent::Read(Ok::<Seq<u8>, Error>(reply)));
    assert(b.clock[0] == clock[1]);
    lemma_reply_is_heard(reply, frame, limits.reply_delay_ms, b);
    let c = b.after_clock().after_io();
    assert(c.clock[0] == clock[2]);
    assert(c.after_clock() =~= Feed::nothing());
}

/// Length of DATA in a secured frame: none, or padded to whole blocks.
pub open spec fn blocks(data: Seq<u8>) -> int {
    if data.len() > 0 {
        16 * (data.len() as int / 16 + 1)
    } else {
        0
    }
}

/// Two drivers at the same session exchange a command and its reply over the secure
/// channel: exactly the command reaches the PD's application, exactly the application's
/// reply reaches the ACU's caller, and both are at the same session again. It rests on both
/// frames opening under the session that they were sealed under, as every frame does that
/// the drivers seal. A reply uses the number up; `osdp_BUSY` does not.
///
/// The two frames are returned.
pub proof fn law_drivers_exchange_securely(
    state: PdStateView,
    s: SecureView,
    dev: PdView,
    cmd: CommandView,
    answers: Answers,
    limits: Limits,
    clock: Seq<u64>,
) -> (frames: (Seq<u8>, Seq<u8>))
    requires
        dev.address <= BROADCAST_ADDR,
        dev.rx.len() == 0,
        dev.last_sqn != Some(state.next_sqn),
        state.secure == Some(AcuSecureView::Secure(s)),
        dev.secure == Some(PdSecureView::Secure(s)),
        cmd.well_formed(),
        answers.reply.well_formed(),
        clock.len() == 3,
        !state.is_offline(clock[0]),
        14 + blocks(cmd.data()->Ok_0) <= 65535,
        14 + blocks(answers.reply.data()) <= 65535,
    ensures
        ({
            let (sent, reply) = frames;
            let (request, after) = acu::steps::secure_request(
                dev.address,
                state,
                state.next_sqn,
                cmd,
            );
            let t = after.session()->0;
            let (answer, last) = pd::steps::secure_reply(
                dev.address,
                dev.use_crc,
                Some(PdSecureView::Secure(t)),
                state.next_sqn,
                answers.reply,
            );
            let polled = pd::model::poll(dev, answers, read_and_reply(sent, reply));
            let ran = acu::model::exchange(
                dev.address,
                state,
                cmd,
                Seq::empty(),
                limits,
                Feed {
                    io: seq![IoEvent::Write(sent, Ok(())), IoEvent::Read(Ok(reply))],
                    clock,
                },
            );
            &&& request == Ok::<Seq<u8>, Error>(sent)
            &&& answer == Ok::<Seq<u8>, Error>(reply)
            &&& last matches Some(PdSecureView::Secure(u)) && ({
                &&& frame::opens_to(s, sent, t, cmd.data()->Ok_0)
                &&& frame::opens_to(t, reply, u, answers.reply.data())
            } ==> {
                &&& polled is Some
                &&& polled->0.outcome == Ok::<bool, Error>(true)
                &&& polled->0.asked == (Asked { key: None, random: false, command: Some(cmd) })
                &&& polled->0.pd.secure == Some(PdSecureView::Secure(u))
                &&& ran == Some(
                    Ran {
                        outcome: Ok(
                            if answers.reply is Busy {
                                ExchangeView::Busy
                            } else {
                                ExchangeView::Reply(answers.reply)
                            },
                        ),
                        pd: PdStateView {
                            next_sqn: if answers.reply is Busy {
                                state.next_sqn
                            } else {
                                state.next_sqn.spec_next()
                            },
                            use_crc: state.use_crc,
                            last_seen_ms: clock[2],
                            seen: true,
                            secure: Some(AcuSecureView::Secure(u)),
                        },
                        rx: Seq::empty(),
                        rest: Feed::nothing(),
                    },
                )
            })
        }),
{
    command::law_command_round_trip(cmd);
    acu::sending::law_secured_command_is_framed(dev.address, state, s, state.next_sqn, cmd);
    pd::outcomes::law_reply_is_framed(
        PdView {
            secure: Some(
                PdSecureView::Secure(
                    acu::steps::secure_request(
                        dev.address,
                        state,
                        state.next_sqn,
                        cmd,
                    ).1.session()->0,
                ),
            ),
            ..dev
        },
        state.next_sqn,
        answers.reply,
    );
    let f = law_secured_command_arrives(dev.address, state, s, state.next_sqn, cmd);
    let (request, after) = acu::steps::secure_request(dev.address, state, state.next_sqn, cmd);
    let t = after.session()->0;
    let sent = request->Ok_0;
    let (answer, last) = pd::steps::secure_reply(
        dev.address,
        dev.use_crc,
        Some(PdSecureView::Secure(t)),
        state.next_sqn,
        answers.reply,
    );
    let reply = answer->Ok_0;
    let g = law_secured_reply_arrives(
        dev.address,
        dev.use_crc,
        after,
        t,
        state.next_sqn,
        answers.reply,
    );
    let u = last->0->Secure_0;
    if frame::opens_to(s, sent, t, cmd.data()->Ok_0) && frame::opens_to(
        t,
        reply,
        u,
        answers.reply.data(),
    ) {
        lemma_poll_acts(dev, answers, sent, f, reply);
        lemma_pd_answers_command(
            dev,
            f,
            cmd,
            cmd.data()->Ok_0,
            Some(PdSecureView::Secure(t)),
            answers,
            reply,
            last,
        );
        lemma_acu_takes_answer(
            dev.address,
            state,
            cmd,
            limits,
            sent,
            after,
            reply,
            g,
            answers.reply,
            after.with_secure(Some(AcuSecureView::Secure(u))),
            clock,
        );
    }
    (sent, reply)
}

/// Two drivers at the same session exchange a command and a reply without DATA over the
/// secure channel: the command reaches the PD's application, the reply reaches the ACU's
/// caller, and both are at the same session again.
///
/// The two frames are returned.
pub proof fn law_drivers_exchange_without_data(
    state: PdStateView,
    s: SecureView,
    dev: PdView,
    cmd: CommandView,
    answers: Answers,
    limits: Limits,
    clock: Seq<u64>,
) -> (frames: (Seq<u8>, Seq<u8>))
    requires
        dev.address <= BROADCAST_ADDR,
        dev.rx.len() == 0,
        dev.last_sqn != Some(state.next_sqn),
        state.secure == Some(AcuSecureView::Secure(s)),
        dev.secure == Some(PdSecureView::Secure(s)),
        s.well_formed(),
        cmd.well_formed(),
        cmd.data() == Ok::<Seq<u8>, Error>(Seq::empty()),
        answers.reply.well_formed(),
        answers.reply.data() == Seq::<u8>::empty(),
        clock.len() == 3,
        !state.is_offline(clock[0]),
    ensures
        ({
            let (sent, reply) = frames;
            let polled = pd::model::poll(dev, answers, read_and_reply(sent, reply));
            let ran = acu::model::exchange(
                dev.address,
                state,
                cmd,
                Seq::empty(),
                limits,
                Feed {
                    io: seq![IoEvent::Write(sent, Ok(())), IoEvent::Read(Ok(reply))],
                    clock,
                },
            );
            &&& polled is Some
            &&& polled->0.outcome == Ok::<bool, Error>(true)
            &&& polled->0.asked == (Asked { key: None, random: false, command: Some(cmd) })
            &&& polled->0.pd.secure matches Some(PdSecureView::Secure(u)) && ran == Some(
                Ran {
                    outcome: Ok(
                        if answers.reply is Busy {
                            ExchangeView::Busy
                        } else {
                            ExchangeView::Reply(answers.reply)
                        },
                    ),
                    pd: PdStateView {
                        next_sqn: if answers.reply is Busy {
                            state.next_sqn
                        } else {
                            state.next_sqn.spec_next()
                        },
                        use_crc: state.use_crc,
                        last_seen_ms: clock[2],
                        seen: true,
                        secure: Some(AcuSecureView::Secure(u)),
                    },
                    rx: Seq::empty(),
                    rest: Feed::nothing(),
                },
            )
        }),
{
    let address = Address { byte: dev.address };
    frame::law_mac_only_frame_opens(
        s,
        address,
        state.next_sqn,
        frame::Direction::AcuToPd,
        cmd.code().spec_byte(),
    );
    let t = frame::seal_frame(
        s,
        address,
        state.next_sqn,
        frame::Direction::AcuToPd,
        false,
        cmd.code().spec_byte(),
        Seq::empty(),
    )->Ok_0.0;
    frame::lemma_sealed_session(
        s,
        address,
        state.next_sqn,
        frame::Direction::AcuToPd,
        false,
        cmd.code().spec_byte(),
        Seq::empty(),
    );
    frame::law_mac_only_frame_opens(
        t,
        control::reply_address(dev.address)->Ok_0,
        state.next_sqn,
        frame::Direction::PdToAcu,
        answers.reply.code().spec_byte(),
    );
    law_drivers_exchange_securely(state, s, dev, cmd, answers, limits, clock)
}

/// A command in the clear is found by the PD that it is sent to.
proof fn lemma_plain_command_arrives(address: u8, use_crc: bool, sqn: Sqn, cmd: CommandView) -> (f:
    CommandFrame)
    requires
        address <= BROADCAST_ADDR,
        cmd.data() is Ok,
        6 + cmd.data()->Ok_0.len() + (if use_crc {
            2int
        } else {
            1
        }) <= 65535,
    ensures
        ({
            let sent = acu::steps::plain_request(address, use_crc, sqn, cmd);
            &&& sent is Ok
            &&& pd::model::scan_command(address, sent->Ok_0) == (
                Ok::<Option<CommandFrame>, Error>(Some(f)),
                Seq::<u8>::empty(),
            )
        }),
        f.code == cmd.code(),
        f.sqn == sqn,
        f.scb is None,
        f.data == cmd.data()->Ok_0,
{
    let empty = Seq::<u8>::empty();
    let p = PacketView {
        addr: Address { byte: address },
        ctrl: ControlByte { sqn, flags: CtrlFlags { use_crc, has_scb: false } },
        scb: None,
        code: cmd.code().spec_byte(),
        data: cmd.data()->Ok_0,
        mac: None,
    };
    assert(codec::frame_well_formed(p));
    pd::laws::law_command_is_found_behind_noise(address, empty, p, cmd.code(), empty);
    assert(empty + codec::frame_bytes(p) + empty =~= codec::frame_bytes(p));
    CommandFrame {
        code: cmd.code(),
        sqn,
        scb: None,
        data: p.data,
        raw: codec::frame_bytes(p),
    }
}

/// A reply in the clear is found by the ACU.
proof fn lemma_plain_reply_arrives(address: u8, use_crc: bool, sqn: Sqn, answer: ReplyView) -> (g:
    ReplyFrame)
    requires
        address <= BROADCAST_ADDR,
        6 + answer.data().len() + (if use_crc {
            2int
        } else {
            1
        }) <= 65535,
    ensures
        ({
            let sent = pd::steps::plain_reply(address, use_crc, sqn, answer);
            &&& sent is Ok
            &&& acu::model::scan_reply(sent->Ok_0) == (
                Ok::<Option<ReplyFrame>, Error>(Some(g)),
                Seq::<u8>::empty(),
            )
        }),
        g.code == answer.code(),
        g.sqn == sqn,
        g.scb is None,
        g.data == answer.data(),
{
    let empty = Seq::<u8>::empty();
    let q = PacketView {
        addr: Address { byte: (address + 0x80) as u8 },
        ctrl: ControlByte { sqn, flags: CtrlFlags { use_crc, has_scb: false } },
        scb: None,
        code: answer.code().spec_byte(),
        data: answer.data(),
        mac: None,
    };
    assert(codec::frame_well_formed(q));
    acu::laws::law_reply_is_found_behind_noise(empty, q, answer.code(), empty);
    assert(empty + codec::frame_bytes(q) + empty =~= codec::frame_bytes(q));
    ReplyFrame {
        code: answer.code(),
        sqn,
        scb: None,
        data: q.data,
        raw: codec::frame_bytes(q),
    }
}

/// Outside a secure session, exactly the command that the ACU sends reaches the PD's
/// application, and exactly the application's reply reaches the ACU's caller.
///
/// The two frames are returned.
pub proof fn law_drivers_exchange_in_the_clear(
    state: PdStateView,
    dev: PdView,
    cmd: CommandView,
    answers: Answers,
    limits: Limits,
    clock: Seq<u64>,
) -> (frames: (Seq<u8>, Seq<u8>))
    requires
        dev.rx.len() == 0,
        dev.last_sqn != Some(state.next_sqn),
        !state.is_secure(),
        !(dev.secure matches Some(PdSecureView::Secure(_))),
        cmd.well_formed(),
        answers.reply.well_formed(),
        clock.len() == 3,
        !state.is_offline(clock[0]),
        dev.address <= BROADCAST_ADDR,
        6 + cmd.data()->Ok_0.len() + (if state.use_crc {
            2int
        } else {
            1
        }) <= 65535,
        6 + answers.reply.data().len() + (if dev.use_crc {
            2int
        } else {
            1
        }) <= 65535,
    ensures
        ({
            let (sent, reply) = frames;
            &&& pd::model::poll(dev, answers, read_and_reply(sent, reply)) == Some(
                Polled {
                    outcome: Ok(true),
                    pd: PdView {
                        last_sqn: Some(state.next_sqn),
                        last_reply: Some(reply),
                        ..dev
                    },
                    asked: Asked { key: None, random: false, command: Some(cmd) },
                    rest: Seq::empty(),
                },
            )
            &&& acu::model::exchange(
                dev.address,
                state,
                cmd,
                Seq::empty(),
                limits,
                Feed {
                    io: seq![IoEvent::Write(sent, Ok(())), IoEvent::Read(Ok(reply))],
                    clock,
                },
            ) == Some(
                Ran {
                    outcome: Ok(
                        if answers.reply is Busy {
                            ExchangeView::Busy
                        } else {
                            ExchangeView::Reply(answers.reply)
                        },
                    ),
                    pd: PdStateView {
                        next_sqn: if answers.reply is Busy {
                            state.next_sqn
                        } else {
                            state.next_sqn.spec_next()
                        },
                        use_crc: state.use_crc,
                        last_seen_ms: clock[2],
                        seen: true,
                        secure: state.secure,
                    },
                    rx: Seq::empty(),
                    rest: Feed::nothing(),
                },
            )
        }),
{
    let data = cmd.data()->Ok_0;
    let answer = answers.reply;
    command::law_command_round_trip(cmd);
    reply::law_reply_round_trip(answer);
    let f = lemma_plain_command_arrives(dev.address, state.use_crc, state.next_sqn, cmd);
    let g = lemma_plain_reply_arrives(dev.address, dev.use_crc, state.next_sqn, answer);
    let sent = acu::steps::plain_request(
        dev.address,
        state.use_crc,
        state.next_sqn,
        cmd,
    )->Ok_0;
    let reply = pd::steps::plain_reply(
        dev.address,
        dev.use_crc,
        state.next_sqn,
        answer,
    )->Ok_0;
    lemma_poll_acts(dev, answers, sent, f, reply);
    lemma_pd_answers_command(dev, f, cmd, data, dev.secure, answers, reply, dev.secure);
    lemma_acu_takes_answer(
        dev.address,
        state,
        cmd,
        limits,
        sent,
        state,
        reply,
        g,
        answer,
        state,
        clock,
    );
    (sent, reply)
}

/// Outside a secure session, sending, a poll and receiving together do what an exchange
/// does: the frame that is sent reaches the PD's application as exactly the command, and the
/// frame that the PD sends back is received as exactly the application's reply. Receiving
/// counts the reply and uses the number up, so that the next command is a new one to the PD.
///
/// The two frames are returned.
pub proof fn law_event_loop_delivers(
    state: PdStateView,
    dev: PdView,
    cmd: CommandView,
    answers: Answers,
    delay: u32,
    clock: Seq<u64>,
) -> (frames: (Seq<u8>, Seq<u8>))
    requires
        dev.rx.len() == 0,
        dev.last_sqn != Some(state.next_sqn),
        !state.is_secure(),
        !(dev.secure matches Some(PdSecureView::Secure(_))),
        cmd.well_formed(),
        answers.reply.well_formed(),
        clock.len() == 2,
        dev.address <= BROADCAST_ADDR,
        6 + cmd.data()->Ok_0.len() + (if state.use_crc {
            2int
        } else {
            1
        }) <= 65535,
        6 + answers.reply.data().len() + (if dev.use_crc {
            2int
        } else {
            1
        }) <= 65535,
    ensures
        ({
            let (sent, reply) = frames;
            &&& acu::model::send_command(
                dev.address,
                state,
                cmd,
                Seq::empty(),
                Feed { io: seq![IoEvent::Write(sent, Ok(()))], clock: Seq::empty() },
            ) == Some(
                Ran {
                    outcome: Ok(sent),
                    pd: state,
                    rx: Seq::empty(),
                    rest: Feed::nothing(),
                },
            )
            &&& pd::model::poll(dev, answers, read_and_reply(sent, reply)) == Some(
                Polled {
                    outcome: Ok(true),
                    pd: PdView {
                        last_sqn: Some(state.next_sqn),
                        last_reply: Some(reply),
                        ..dev
                    },
                    asked: Asked { key: None, random: false, command: Some(cmd) },
                    rest: Seq::empty(),
                },
            )
            &&& acu::model::receive(
                state,
                Seq::empty(),
                delay,
                Feed { io: seq![IoEvent::Read(Ok(reply))], clock },
            ) == Some(
                Ran {
                    outcome: Ok(answers.reply),
                    pd: PdStateView {
                        next_sqn: state.next_sqn.spec_next(),
                        use_crc: state.use_crc,
                        last_seen_ms: clock[1],
                        seen: true,
                        secure: state.secure,
                    },
                    rx: Seq::empty(),
                    rest: Feed::nothing(),
                },
            )
            &&& state.next_sqn.spec_next() != state.next_sqn
        }),
{
    let data = cmd.data()->Ok_0;
    let answer = answers.reply;
    command::law_command_round_trip(cmd);
    reply::law_reply_round_trip(answer);
    control::law_sqn_cycle(state.next_sqn);
    let f = lemma_plain_command_arrives(dev.address, state.use_crc, state.next_sqn, cmd);
    let g = lemma_plain_reply_arrives(dev.address, dev.use_crc, state.next_sqn, answer);
    let sent = acu::steps::plain_request(
        dev.address,
        state.use_crc,
        state.next_sqn,
        cmd,
    )->Ok_0;
    let reply = pd::steps::plain_reply(
        dev.address,
        dev.use_crc,
        state.next_sqn,
        answer,
    )->Ok_0;
    lemma_poll_acts(dev, answers, sent, f, reply);
    lemma_pd_answers_command(dev, f, cmd, data, dev.secure, answers, reply, dev.secure);
    let out = Feed { io: seq![IoEvent::Write(sent, Ok::<(), Error>(()))], clock: Seq::empty() };
    assert(out.io[0] == IoEvent::Write(sent, Ok::<(), Error>(())));
    assert(out.after_io() =~= Feed::nothing());
    let back = Feed { io: seq![IoEvent::Read(Ok::<Seq<u8>, Error>(reply))], clock };
    assert(back.io[0] == IoEvent::Read(Ok::<Seq<u8>, Error>(reply)));
    lemma_reply_is_heard(reply, g, delay, back);
    let left = back.after_clock().after_io();
    assert(left.clock[0] == clock[1]);
    assert(left.after_clock() =~= Feed::nothing());
    (sent, reply)
}

/// A PD that has answered a command and gets it again repeats its reply, and changes
/// nothing.
proof fn lemma_pd_repeats(dev: PdView, answers: Answers, command: Seq<u8>, f: CommandFrame)
    requires
        dev.rx.len() == 0,
        dev.last_sqn == Some(f.sqn),
        dev.last_reply is Some,
        pd::model::scan_command(dev.address, command) == (
            Ok::<Option<CommandFrame>, Error>(Some(f)),
            Seq::<u8>::empty(),
        ),
    ensures
        pd::model::poll(dev, answers, read_and_reply(command, dev.last_reply->0)) == Some(
            Polled {
                outcome: Ok(true),
                pd: dev,
                asked: Asked::nothing(),
                rest: Seq::empty(),
            },
        ),
{
    let reply = dev.last_reply->0;
    lemma_poll_acts(dev, answers, command, f, reply);
    lemma_reply_goes_out(dev, f.sqn, reply, Asked::nothing());
}

/// The events of an exchange whose first attempt `first` goes unanswered, as the ACU sees
/// them: the frame goes out again, and the reply arrives. The clock is read when the
/// exchange begins, when the first attempt has been given up, and around the second.
pub open spec fn second_attempt_events(
    first: Feed,
    sent: Seq<u8>,
    reply: Seq<u8>,
    clock: Seq<u64>,
) -> Feed {
    feed::one_reading(clock[0]).followed_by(
        first.followed_by(
            feed::one_reading(clock[1]).followed_by(second_attempt(sent, reply, clock)),
        ),
    )
}

/// The second of these attempts.
pub open spec fn second_attempt(sent: Seq<u8>, reply: Seq<u8>, clock: Seq<u64>) -> Feed {
    Feed {
        io: seq![IoEvent::Write(sent, Ok(())), IoEvent::Read(Ok(reply))],
        clock: seq![clock[2], clock[3]],
    }
}

/// An attempt at which the reply is read in one piece, behind noise from the one before.
proof fn lemma_second_attempt(
    sqn: Sqn,
    sent: Seq<u8>,
    after: PdStateView,
    noise: Seq<u8>,
    delay: u32,
    reply: Seq<u8>,
    frame: ReplyFrame,
    answer: ReplyView,
    last: PdStateView,
    clock: Seq<u64>,
)
    requires
        acu::laws::is_noise(noise),
        acu::model::scan_reply(reply) == (
            Ok::<Option<ReplyFrame>, Error>(Some(frame)),
            Seq::<u8>::empty(),
        ),
        frame.sqn == sqn,
        acu::steps::open_reply(after, frame) == (Ok::<Seq<u8>, Error>(answer.data()), last),
        reply::reply_decode(frame.code, answer.data()) == Ok::<ReplyView, Error>(answer),
    ensures
        acu::model::try_once(
            sent,
            sqn,
            after,
            noise,
            delay,
            second_attempt(sent, reply, clock),
        ) == Some(
            Ran {
                outcome: Ok(Some(answer)),
                pd: last,
                rx: Seq::empty(),
                rest: feed::one_reading(clock[3]),
            },
        ),
{
    reveal(acu::model::try_once);
    let all = second_attempt(sent, reply, clock);
    let a = all.after_io();
    assert(all.io[0] == IoEvent::Write(sent, Ok::<(), Error>(())));
    assert(a.after_clock().io[0] == IoEvent::Read(Ok::<Seq<u8>, Error>(reply)));
    assert(a.after_clock().after_io() =~= feed::one_reading(clock[3]));
    bytes::lemma_first_index(noise, SOM);
    assert(acu::model::scan_reply(noise) == (Ok::<Option<ReplyFrame>, Error>(None), noise));
    acu::laws::law_noise_is_skipped(noise, reply);
}

/// The ACU's part of an exchange whose first attempt goes unanswered.
proof fn lemma_acu_takes_second_answer(
    address: u8,
    state: PdStateView,
    cmd: CommandView,
    rx: Seq<u8>,
    limits: Limits,
    sent: Seq<u8>,
    after: PdStateView,
    first: Feed,
    got: Ran<Option<ReplyView>>,
    reply: Seq<u8>,
    frame: ReplyFrame,
    answer: ReplyView,
    last: PdStateView,
    clock: Seq<u64>,
)
    requires
        !state.is_offline(clock[0]),
        acu::model::try_once(sent, state.next_sqn, after, rx, limits.reply_delay_ms, first) == Some(
            got,
        ),
        got.outcome == Ok::<Option<ReplyView>, Error>(None),
        got.rest == Feed::nothing(),
        acu::laws::is_noise(got.rx),
        !state.is_offline(clock[1]),
        limits.max_retries > 0,
        limits.overall_budget_ms == 0 || acu::state::elapsed(clock[1], clock[0])
            < limits.overall_budget_ms,
        after.seen == state.seen,
        after.last_seen_ms == state.last_seen_ms,
        acu::steps::request(address, state, state.next_sqn, cmd) == (
            Ok::<Seq<u8>, Error>(sent),
            after,
        ),
        acu::model::scan_reply(reply) == (
            Ok::<Option<ReplyFrame>, Error>(Some(frame)),
            Seq::<u8>::empty(),
        ),
        frame.sqn == state.next_sqn,
        acu::steps::open_reply(after, frame) == (Ok::<Seq<u8>, Error>(answer.data()), last),
        reply::reply_decode(frame.code, answer.data()) == Ok::<ReplyView, Error>(answer),
        answer !is Busy,
    ensures
        acu::model::exchange(
            address,
            state,
            cmd,
            rx,
            limits,
            second_attempt_events(first, sent, reply, clock),
        ) == Some(
            Ran {
                outcome: Ok(ExchangeView::Reply(answer)),
                pd: last.seen_at(clock[3]).bumped(),
                rx: Seq::empty(),
                rest: Feed::nothing(),
            },
        ),
{
    let delay = limits.reply_delay_ms;
    let sqn = state.next_sqn;
    let again = second_attempt(sent, reply, clock);
    let timed = feed::one_reading(clock[1]).followed_by(again);
    let tried = first.followed_by(timed);
    let event = IoEvent::Read(Err(Error::Io));
    feed::lemma_first(event, clock[0], tried);
    feed::lemma_first(event, clock[1], again);
    feed::lemma_first(event, clock[3], Feed::nothing());
    feed::lemma_followed_by(timed, timed, timed);
    feed::lemma_followed_by(feed::one_reading(clock[3]), timed, timed);
    acu::laws::law_timed_out_attempt_keeps_state(sent, sqn, after, rx, delay, first, got);
    acu::progress::lemma_try_once_extends(sent, sqn, after, rx, delay, first, timed);
    lemma_second_attempt(sqn, sent, after, got.rx, delay, reply, frame, answer, last, clock);
    let end = Some(
        Ran {
            outcome: Ok::<ExchangeView, Error>(ExchangeView::Reply(answer)),
            pd: last.seen_at(clock[3]).bumped(),
            rx: Seq::empty(),
            rest: Feed::nothing(),
        },
    );
    let secured = state.is_secure();
    assert(acu::model::attempt(sent, secured, sqn, clock[0], 1, after, got.rx, limits, again)
        == end);
    assert(acu::model::attempt(sent, secured, sqn, clock[0], 0, after, rx, limits, tried) == end);
}

/// A reply that is lost on the secure channel does not put the two drivers out of step. The
/// first attempt, `first`, may time out in any way: by the clock, for want of bytes, or on a
/// line that brings nothing but noise. The ACU then sends the same frame again, the PD repeats its reply without asking its application
/// or moving its session, and the ACU's caller gets the application's reply. Both are then at
/// the same session. It rests on both frames opening under the session that they were sealed
/// under, as every frame does that the drivers seal.
///
/// The two frames are returned.
pub proof fn law_lost_reply_is_recovered(
    state: PdStateView,
    s: SecureView,
    dev: PdView,
    cmd: CommandView,
    answers: Answers,
    later: Answers,
    rx: Seq<u8>,
    limits: Limits,
    first: Feed,
    got: Ran<Option<ReplyView>>,
    clock: Seq<u64>,
) -> (frames: (Seq<u8>, Seq<u8>))
    requires
        dev.address <= BROADCAST_ADDR,
        dev.rx.len() == 0,
        dev.last_sqn != Some(state.next_sqn),
        state.secure == Some(AcuSecureView::Secure(s)),
        dev.secure == Some(PdSecureView::Secure(s)),
        cmd.well_formed(),
        answers.reply.well_formed(),
        answers.reply !is Busy,
        clock.len() == 4,
        !state.is_offline(clock[0]),
        !state.is_offline(clock[1]),
        limits.max_retries > 0,
        limits.overall_budget_ms == 0 || acu::state::elapsed(clock[1], clock[0])
            < limits.overall_budget_ms,
        14 + blocks(cmd.data()->Ok_0) <= 65535,
        14 + blocks(answers.reply.data()) <= 65535,
        ({
            let (request, after) = acu::steps::secure_request(
                dev.address,
                state,
                state.next_sqn,
                cmd,
            );
            acu::model::try_once(
                request->Ok_0,
                state.next_sqn,
                after,
                rx,
                limits.reply_delay_ms,
                first,
            ) == Some(got)
        }),
        got.outcome == Ok::<Option<ReplyView>, Error>(None),
        got.rest == Feed::nothing(),
        acu::laws::is_noise(got.rx),
    ensures
        ({
            let (sent, reply) = frames;
            let (request, after) = acu::steps::secure_request(
                dev.address,
                state,
                state.next_sqn,
                cmd,
            );
            let t = after.session()->0;
            let (answer, last) = pd::steps::secure_reply(
                dev.address,
                dev.use_crc,
                Some(PdSecureView::Secure(t)),
                state.next_sqn,
                answers.reply,
            );
            let answered = pd::model::poll(dev, answers, read_and_reply(sent, reply));
            let repeated = pd::model::poll(answered->0.pd, later, read_and_reply(sent, reply));
            &&& request == Ok::<Seq<u8>, Error>(sent)
            &&& answer == Ok::<Seq<u8>, Error>(reply)
            &&& last matches Some(PdSecureView::Secure(u)) && ({
                &&& frame::opens_to(s, sent, t, cmd.data()->Ok_0)
                &&& frame::opens_to(t, reply, u, answers.reply.data())
            } ==> {
                &&& answered is Some
                &&& answered->0.outcome == Ok::<bool, Error>(true)
                &&& answered->0.asked == (Asked { key: None, random: false, command: Some(cmd) })
                &&& answered->0.pd.secure == Some(PdSecureView::Secure(u))
                &&& repeated == Some(
                    Polled {
                        outcome: Ok(true),
                        pd: answered->0.pd,
                        asked: Asked::nothing(),
                        rest: Seq::empty(),
                    },
                )
                &&& acu::model::exchange(
                    dev.address,
                    state,
                    cmd,
                    rx,
                    limits,
                    second_attempt_events(first, sent, reply, clock),
                ) == Some(
                    Ran {
                        outcome: Ok(ExchangeView::Reply(answers.reply)),
                        pd: state.seen_at(clock[3]).bumped().with_secure(
                            Some(AcuSecureView::Secure(u)),
                        ),
                        rx: Seq::empty(),
                        rest: Feed::nothing(),
                    },
                )
            })
        }),
{
    command::law_command_round_trip(cmd);
    acu::sending::law_secured_command_is_framed(dev.address, state, s, state.next_sqn, cmd);
    pd::outcomes::law_reply_is_framed(
        PdView {
            secure: Some(
                PdSecureView::Secure(
                    acu::steps::secure_request(
                        dev.address,
                        state,
                        state.next_sqn,
                        cmd,
                    ).1.session()->0,
                ),
            ),
            ..dev
        },
        state.next_sqn,
        answers.reply,
    );
    let f = law_secured_command_arrives(dev.address, state, s, state.next_sqn, cmd);
    let (request, after) = acu::steps::secure_request(dev.address, state, state.next_sqn, cmd);
    let t = after.session()->0;
    let sent = request->Ok_0;
    let (answer, last) = pd::steps::secure_reply(
        dev.address,
        dev.use_crc,
        Some(PdSecureView::Secure(t)),
        state.next_sqn,
        answers.reply,
    );
    let reply = answer->Ok_0;
    let g = law_secured_reply_arrives(
        dev.address,
        dev.use_crc,
        after,
        t,
        state.next_sqn,
        answers.reply,
    );
    let u = last->0->Secure_0;
    if frame::opens_to(s, sent, t, cmd.data()->Ok_0) && frame::opens_to(
        t,
        reply,
        u,
        answers.reply.data(),
    ) {
        lemma_poll_acts(dev, answers, sent, f, reply);
        lemma_pd_answers_command(
            dev,
            f,
            cmd,
            cmd.data()->Ok_0,
            Some(PdSecureView::Secure(t)),
            answers,
            reply,
            last,
        );
        let dev1 = pd::model::poll(dev, answers, read_and_reply(sent, reply))->0.pd;
        lemma_pd_repeats(dev1, later, sent, f);
        lemma_acu_takes_second_answer(
            dev.address,
            state,
            cmd,
            rx,
            limits,
            sent,
            after,
            first,
            got,
            reply,
            g,
            answers.reply,
            after.with_secure(Some(AcuSecureView::Secure(u))),
            clock,
        );
    }
    (sent, reply)
}

} // verus!
