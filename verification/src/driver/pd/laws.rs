//! What holds of the PD driver as a whole.

use vstd::prelude::*;

use crate::bytes;
use crate::command;
use crate::command::{CommandCode, CommandView};
use crate::driver::feed;
use crate::driver::pd::model::{self, Answers, Asked, Drained, PdView, Polled};
use crate::driver::pd::state;
use crate::driver::pd::state::{PdSecureKey, PdSecureView};
use crate::driver::pd::steps::{self, CommandFrame};
use crate::error::{Error, SecureSessionError};
use crate::packet::codec;
use crate::packet::codec::PacketView;
use crate::packet::control;
use crate::packet::control::BROADCAST_ADDR;
use crate::secure::frame;
use crate::secure::session;
use crate::secure::session::{PdChallengedView, SecureView};
use crate::transport::IoEvent;
use crate::SOM;

verus! {

/// The number of the last command asks for its reply again, whatever else the frame says:
/// the application is left alone, nothing changes, and exactly the last reply is sent.
pub proof fn law_duplicate_repeats_last_reply(
    pd: PdView,
    f: CommandFrame,
    answers: Answers,
    io: Seq<IoEvent>,
    p: Polled,
)
    requires
        pd.last_sqn == Some(f.sqn),
        model::act(pd, f, answers, io) == Some(p),
    ensures
        p.asked == Asked::nothing(),
        p.pd == pd,
        match pd.last_reply {
            Some(bytes) => {
                &&& io.len() > 0
                &&& io[0] is Write
                &&& io[0]->Write_0 == bytes
                &&& p.rest == io.drop_first()
            },
            None => p.rest == io && p.outcome == Ok::<bool, Error>(true),
        },
{
}

/// A command that was answered is remembered with its reply: a repetition of it gets the
/// same bytes again, and does not reach the application.
pub proof fn law_answered_command_can_be_repeated(
    pd: PdView,
    f: CommandFrame,
    answers: Answers,
    io: Seq<IoEvent>,
    p: Polled,
    later: Answers,
    again: Seq<IoEvent>,
    q: Polled,
)
    requires
        pd.last_sqn != Some(f.sqn),
        model::act(pd, f, answers, io) == Some(p),
        p.outcome == Ok::<bool, Error>(true),
        model::act(p.pd, f, later, again) == Some(q),
    ensures
        p.pd.last_sqn == Some(f.sqn),
        io[0] is Write,
        p.pd.last_reply == Some(io[0]->Write_0),
        again[0] is Write,
        again[0]->Write_0 == io[0]->Write_0,
        q.asked == Asked::nothing(),
        q.pd == p.pd,
{
    reveal(model::answer);
}

/// In a secure session a command reaches the application only if its frame is secured in
/// the ACU's direction, its MAC is right under the session, and the command is what the
/// opened DATA says.
pub proof fn law_nothing_unauthenticated_is_dispatched(
    pd: PdView,
    s: SecureView,
    f: CommandFrame,
    answers: Answers,
    io: Seq<IoEvent>,
    p: Polled,
)
    requires
        pd.secure == Some(PdSecureView::Secure(s)),
        f.well_formed(),
        model::act(pd, f, answers, io) == Some(p),
    ensures
        p.asked.command matches Some(cmd) ==> {
            let parsed = codec::parse_frame(f.raw)->Ok_0.0;
            let covered = f.raw.take(
                f.raw.len() - codec::trailer_len(parsed.ctrl) - codec::MAC_LEN,
            );
            &&& f.is_secured()
            &&& parsed.mac == Some(
                frame::mac_of(s, frame::Direction::AcuToPd, covered).take(codec::MAC_LEN as int),
            )
            &&& frame::unseal_frame(s, parsed, f.raw) is Ok
            &&& command::command_decode(
                f.code,
                frame::unseal_frame(s, parsed, f.raw)->Ok_0.1,
            ) == Ok::<CommandView, Error>(cmd)
        },
{
    reveal(model::answer);
}

/// In a secure session a frame that is neither secured by the ACU nor part of a handshake
/// is refused: the application is left alone, nothing is sent, and the session stands.
pub proof fn law_plaintext_command_is_refused(
    pd: PdView,
    s: SecureView,
    f: CommandFrame,
    answers: Answers,
    io: Seq<IoEvent>,
)
    requires
        pd.secure == Some(PdSecureView::Secure(s)),
        pd.last_sqn != Some(f.sqn),
        !f.is_secured(),
        !f.is_challenge(),
        !f.is_proof(),
    ensures
        model::act(pd, f, answers, io) == Some(
            Polled {
                outcome: Err(Error::SecureSession(SecureSessionError::NotSecure)),
                pd,
                asked: Asked::nothing(),
                rest: io,
            },
        ),
{
    reveal(model::answer);
}

/// A secured command with a wrong MAC leaves the session disconnected, and does not reach
/// the application.
pub proof fn law_wrong_mac_disconnects(
    pd: PdView,
    s: SecureView,
    f: CommandFrame,
    answers: Answers,
    io: Seq<IoEvent>,
)
    requires
        pd.secure == Some(PdSecureView::Secure(s)),
        pd.last_sqn != Some(f.sqn),
        f.well_formed(),
        f.is_secured(),
        ({
            let parsed = codec::parse_frame(f.raw)->Ok_0.0;
            let covered = f.raw.take(
                f.raw.len() - codec::trailer_len(parsed.ctrl) - codec::MAC_LEN,
            );
            parsed.mac != Some(
                frame::mac_of(s, frame::Direction::AcuToPd, covered).take(codec::MAC_LEN as int),
            )
        }),
    ensures
        model::act(pd, f, answers, io) == Some(
            Polled {
                outcome: Err(Error::SecureSession(SecureSessionError::BadMac)),
                pd: PdView { secure: Some(PdSecureView::Disconnected(s.scbk)), ..pd },
                asked: Asked::nothing(),
                rest: io,
            },
        ),
{
    reveal(model::answer);
}

/// A challenge to a PD with a secure-channel identity does not reach the application's
/// command handling, however it is answered.
pub proof fn law_challenge_bypasses_handler(
    pd: PdView,
    f: CommandFrame,
    answers: Answers,
    io: Seq<IoEvent>,
    p: Polled,
)
    requires
        pd.config is Some,
        f.is_challenge(),
        model::act(pd, f, answers, io) == Some(p),
    ensures
        p.asked.command is None,
{
    reveal(model::answer);
}

/// The second step of a handshake that is under way does not reach the application's
/// command handling, however it is answered.
pub proof fn law_proof_bypasses_handler(
    pd: PdView,
    f: CommandFrame,
    answers: Answers,
    io: Seq<IoEvent>,
    p: Polled,
)
    requires
        pd.config is Some,
        pd.secure is Some,
        pd.secure->0 is Challenged,
        f.is_proof(),
        model::act(pd, f, answers, io) == Some(p),
    ensures
        p.asked == Asked::nothing(),
{
    reveal(model::answer);
}

/// A wrong server cryptogram, and a change of the key selector during the handshake, end the
/// handshake: nothing is sent, and the PD is left disconnected.
pub proof fn law_wrong_cryptogram_disconnects(
    pd: PdView,
    session: PdChallengedView,
    key: PdSecureKey,
    f: CommandFrame,
    answers: Answers,
    io: Seq<IoEvent>,
)
    requires
        pd.config is Some,
        pd.last_sqn != Some(f.sqn),
        pd.secure == Some(PdSecureView::Challenged { session, key }),
        f.is_proof(),
        f.data.len() == 16,
        state::key_selected(f.scb->0.data) is Ok,
        state::key_selected(f.scb->0.data)->Ok_0 != key || session::accept_scrypt(
            session,
            f.data,
        ) is Err,
    ensures
        model::act(pd, f, answers, io) == Some(
            Polled {
                outcome: Err(Error::SecureSession(SecureSessionError::BadCryptogram)),
                pd: PdView { secure: Some(PdSecureView::Disconnected(session.scbk)), ..pd },
                asked: Asked::nothing(),
                rest: io,
            },
        ),
{
    reveal(model::answer);
}

/// A handshake frame establishes a session only by a proof that is accepted, and ends one
/// only by a challenge that is taken up. Every other frame, and every frame that is refused
/// during a session, leaves an established session as it is.
pub proof fn law_session_begins_and_ends_by_handshake(
    address: u8,
    use_crc: bool,
    config: Option<Seq<u8>>,
    secure: Option<PdSecureView>,
    f: CommandFrame,
    material: Option<(PdSecureKey, Seq<u8>, Seq<u8>)>,
)
    requires
        control::reply_address(address) is Ok,
        config is Some ==> config->0.len() == 8,
        steps::material_fits(config, f, material),
        material is Some ==> (material->0).2.len() == 8,
    ensures
        ({
            let (r, after) = steps::handshake(address, use_crc, config, secure, f, material);
            let answered = r matches Ok(Some(_));
            let before_is_secure = secure is Some && secure->0 is Secure;
            let after_is_secure = after is Some && after->0 is Secure;
            &&& after_is_secure <==> {
                ||| f.is_proof() && answered
                ||| before_is_secure && !(f.is_challenge() && answered)
            }
            &&& before_is_secure && !(f.is_challenge() && answered) ==> after == secure
        }),
{
}

/// A command for this address, or for all, is found behind any bytes that hold no start
/// byte, and what follows it is left for later.
pub proof fn law_command_is_found_behind_noise(
    address: u8,
    noise: Seq<u8>,
    p: PacketView,
    code: CommandCode,
    rest: Seq<u8>,
)
    requires
        forall|i: int| 0 <= i < noise.len() ==> noise[i] != SOM,
        codec::frame_well_formed(p),
        p.code == code.spec_byte(),
        p.addr.spec_pd_addr() == address || p.addr.spec_pd_addr() == BROADCAST_ADDR,
    ensures
        model::scan_command(address, noise + codec::frame_bytes(p) + rest) == (
            Ok::<Option<CommandFrame>, Error>(
                Some(
                    CommandFrame {
                        code,
                        sqn: p.ctrl.sqn,
                        scb: p.scb,
                        data: p.data,
                        raw: codec::frame_bytes(p),
                    },
                ),
            ),
            rest,
        ),
{
    let f = codec::frame_bytes(p);
    let rx = noise + f + rest;
    codec::law_frame_round_trip(p, rest);
    command::law_command_code_round_trip(code, 0);
    assert(f[0] == SOM);
    bytes::lemma_first_index_is(rx, SOM, noise.len());
    assert(rx.skip(noise.len() as int) =~= f + rest);
    assert((f + rest).take(f.len() as int) =~= f);
    assert((f + rest).skip(f.len() as int) =~= rest);
}

/// A frame for another PD is skipped: what follows it is dealt with as if it had come
/// alone.
pub proof fn law_other_pds_frames_are_skipped(address: u8, p: PacketView, rest: Seq<u8>)
    requires
        codec::frame_well_formed(p),
        p.addr.spec_pd_addr() != address,
        p.addr.spec_pd_addr() != BROADCAST_ADDR,
    ensures
        model::scan_command(address, codec::frame_bytes(p) + rest) == model::scan_command(
            address,
            rest,
        ),
{
    let f = codec::frame_bytes(p);
    let rx = f + rest;
    codec::law_frame_round_trip(p, rest);
    assert(f[0] == SOM);
    bytes::lemma_first_index_is(rx, SOM, 0);
    assert(rx.skip(0) =~= rx);
    assert(rx.skip(f.len() as int) =~= rest);
}

/// Scanning can be taken up again where it left off when more bytes have arrived, and what
/// it has found does not change with them.
pub proof fn lemma_scan_resumes(address: u8, rx: Seq<u8>, more: Seq<u8>)
    ensures
        ({
            let (found, rx1) = model::scan_command(address, rx);
            model::scan_command(address, rx + more) == if found == Ok::<
                Option<CommandFrame>,
                Error,
            >(None) {
                model::scan_command(address, rx1 + more)
            } else {
                (found, rx1 + more)
            }
        }),
    decreases rx.len(),
{
    bytes::lemma_first_index(rx, SOM);
    let at = bytes::first_index(rx, SOM);
    if at < rx.len() {
        let buf = rx.skip(at as int);
        assert forall|i: int| 0 <= i < at implies (rx + more)[i] != SOM by {
            assert((rx + more)[i] == rx[i]);
        }
        bytes::lemma_first_index_is(rx + more, SOM, at);
        assert((rx + more).skip(at as int) =~= buf + more);
        bytes::lemma_first_index_is(buf + more, SOM, 0);
        assert((buf + more).skip(0) =~= buf + more);
        assert(model::scan_command(address, rx + more) == model::scan_command(
            address,
            buf + more,
        ));
        if !(codec::parse_frame(buf) matches Err(Error::Truncated { .. })) {
            codec::law_parse_is_final(buf, more);
        }
        if let Ok((p, used)) = codec::parse_frame(buf) {
            codec::law_parse_is_local(buf);
            assert((buf + more).skip(used) =~= buf.skip(used) + more);
            assert((buf + more).take(used) =~= buf.take(used));
            lemma_scan_resumes(address, buf.skip(used), more);
        }
    }
}

/// Draining finds what scanning all the bytes at once would find.
proof fn lemma_drain_scans(address: u8, rx: Seq<u8>, reads: nat, io: Seq<IoEvent>)
    requires
        model::drain(address, rx, reads, io) is Some,
        model::drain(address, rx, reads, io)->0.rest.len() == 0,
        feed::delivers(io, feed::bytes_read(io)),
    ensures
        ({
            let d = model::drain(address, rx, reads, io)->0;
            (d.outcome, d.rx) == model::scan_command(address, rx + feed::bytes_read(io))
        }),
    decreases io.len(),
{
    let rest = io.drop_first();
    let more = io[0]->Read_0->Ok_0;
    feed::lemma_delivers(io, feed::bytes_read(io));
    let (found, rx1) = model::scan_command(address, rx + more);
    assert(rx + feed::bytes_read(io) =~= rx + more + feed::bytes_read(rest));
    if model::drains_on(found, more, reads + 1) {
        lemma_drain_scans(address, rx1, reads + 1, rest);
        lemma_scan_resumes(address, rx + more, feed::bytes_read(rest));
    } else {
        assert(rest =~= Seq::<IoEvent>::empty());
        assert(rx + more + feed::bytes_read(rest) =~= rx + more);
    }
}

/// It does not matter in how many pieces the bytes arrive: a poll acts upon the command that
/// stands first in all that has been received, as it would had they come in one read.
pub proof fn law_pieces_make_a_command(
    pd: PdView,
    answers: Answers,
    reads: Seq<IoEvent>,
    io: Seq<IoEvent>,
)
    requires
        model::drain(pd.address, pd.rx, 0, reads) is Some,
        model::drain(pd.address, pd.rx, 0, reads)->0.rest.len() == 0,
        feed::delivers(reads, feed::bytes_read(reads)),
    ensures
        ({
            let (found, rx) = model::scan_command(pd.address, pd.rx + feed::bytes_read(reads));
            let pd1 = PdView { rx, ..pd };
            model::poll(pd, answers, reads + io) == match found {
                Err(e) => Some(
                    Polled { outcome: Err(e), pd: pd1, asked: Asked::nothing(), rest: io },
                ),
                Ok(None) => Some(
                    Polled { outcome: Ok(false), pd: pd1, asked: Asked::nothing(), rest: io },
                ),
                Ok(Some(f)) => model::act(pd1, f, answers, io),
            }
        }),
{
    reveal(model::poll);
    lemma_drain_scans(pd.address, pd.rx, 0, reads);
    model::lemma_drain_extends(pd.address, pd.rx, 0, reads, io);
    assert(Seq::<IoEvent>::empty() + io =~= io);
    assert(model::drain(pd.address, pd.rx, 0, reads)->0.rest =~= Seq::<IoEvent>::empty());
}

/// Draining reads on until something is complete.
proof fn lemma_drain_reaches(address: u8, rx: Seq<u8>, reads: nat, io: Seq<IoEvent>)
    requires
        io.len() > 0,
        reads + io.len() <= model::MAX_DRAIN_READS,
        feed::delivers(io, feed::bytes_read(io)),
        forall|i: int|
            0 <= i < io.len() - 1 ==> (#[trigger] io[i])->Read_0->Ok_0.len() > 0,
        io.len() > 1 ==> model::scan_command(
            address,
            rx + feed::bytes_read(io.drop_last()),
        ).0 == Ok::<Option<CommandFrame>, Error>(None),
        model::scan_command(address, rx + feed::bytes_read(io)).0 != Ok::<
            Option<CommandFrame>,
            Error,
        >(None),
    ensures
        ({
            let (outcome, rx1) = model::scan_command(address, rx + feed::bytes_read(io));
            model::drain(address, rx, reads, io) == Some(
                Drained { outcome, rx: rx1, rest: Seq::empty() },
            )
        }),
    decreases io.len(),
{
    let rest = io.drop_first();
    let more = io[0]->Read_0->Ok_0;
    feed::lemma_delivers(io, feed::bytes_read(io));
    assert(rx + feed::bytes_read(io) =~= rx + more + feed::bytes_read(rest));
    if io.len() == 1 {
        assert(rest =~= Seq::<IoEvent>::empty());
        assert(rx + more + feed::bytes_read(rest) =~= rx + more);
    } else {
        let before = rest.drop_last();
        let (found, rx1) = model::scan_command(address, rx + more);
        assert(io.drop_last().drop_first() =~= before);
        assert(io.drop_last()[0] == io[0]);
        assert(rx + feed::bytes_read(io.drop_last()) =~= rx + more + feed::bytes_read(before));
        lemma_scan_resumes(address, rx + more, feed::bytes_read(before));
        lemma_scan_resumes(address, rx + more, feed::bytes_read(rest));
        assert(more.len() > 0);
        assert forall|i: int| 0 <= i < rest.len() - 1 implies (
        #[trigger] rest[i])->Read_0->Ok_0.len() > 0 by {
            assert(rest[i] == io[i + 1]);
        }
        if rest.len() == 1 {
            assert(before =~= Seq::<IoEvent>::empty());
        }
        lemma_drain_reaches(address, rx1, reads + 1, rest);
    }
}

/// A poll reads on while there is something to read and no command for this PD is complete:
/// it acts upon the command that the last of these reads completes, however much came
/// before it, or however long the command is.
pub proof fn law_poll_reads_until_a_command(
    pd: PdView,
    answers: Answers,
    reads: Seq<IoEvent>,
    io: Seq<IoEvent>,
    f: CommandFrame,
    rx: Seq<u8>,
)
    requires
        0 < reads.len() <= model::MAX_DRAIN_READS,
        feed::delivers(reads, feed::bytes_read(reads)),
        forall|i: int|
            0 <= i < reads.len() - 1 ==> (#[trigger] reads[i])->Read_0->Ok_0.len() > 0,
        reads.len() > 1 ==> model::scan_command(
            pd.address,
            pd.rx + feed::bytes_read(reads.drop_last()),
        ).0 == Ok::<Option<CommandFrame>, Error>(None),
        model::scan_command(pd.address, pd.rx + feed::bytes_read(reads)) == (
            Ok::<Option<CommandFrame>, Error>(Some(f)),
            rx,
        ),
    ensures
        model::poll(pd, answers, reads + io) == model::act(PdView { rx, ..pd }, f, answers, io),
{
    lemma_drain_reaches(pd.address, pd.rx, 0, reads);
    law_pieces_make_a_command(pd, answers, reads, io);
}

/// How draining ends without a command.
proof fn lemma_drain_ends_empty(address: u8, rx: Seq<u8>, reads: nat, io: Seq<IoEvent>)
    requires
        reads + io.len() < model::MAX_DRAIN_READS,
        model::drain(address, rx, reads, io) is Some,
        model::drain(address, rx, reads, io)->0.outcome == Ok::<Option<CommandFrame>, Error>(None),
        model::drain(address, rx, reads, io)->0.rest.len() == 0,
    ensures
        io.len() > 0,
        io.last() == IoEvent::Read(Ok::<Seq<u8>, Error>(Seq::empty())),
    decreases io.len(),
{
    let rest = io.drop_first();
    let more = io[0]->Read_0->Ok_0;
    let (found, rx1) = model::scan_command(address, rx + more);
    if model::drains_on(found, more, reads + 1) {
        lemma_drain_ends_empty(address, rx1, reads + 1, rest);
        assert(io.last() == rest.last());
    } else {
        assert(more =~= Seq::<u8>::empty());
    }
}

/// A poll that asks for more bytes has taken all there were: its last read brought nothing.
/// It has written nothing, and has asked the application nothing.
pub proof fn law_poll_drains_the_transport(
    pd: PdView,
    answers: Answers,
    io: Seq<IoEvent>,
    p: Polled,
)
    requires
        model::poll(pd, answers, io) == Some(p),
        p.outcome == Ok::<bool, Error>(false),
        p.rest.len() == 0,
        io.len() < model::MAX_DRAIN_READS,
    ensures
        io.len() > 0,
        io.last() == IoEvent::Read(Ok::<Seq<u8>, Error>(Seq::empty())),
        p.asked == Asked::nothing(),
        p.pd == (PdView { rx: p.pd.rx, ..pd }),
{
    reveal(model::poll);
    reveal(model::answer);
    lemma_drain_ends_empty(pd.address, pd.rx, 0, io);
}

} // verus!
