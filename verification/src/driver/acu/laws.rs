//! What holds of the ACU driver as a whole.

use vstd::prelude::*;

use crate::bytes;
use crate::command::CommandView;
use crate::driver::acu::model::{
    self, ExchangeView, Heard, Limits, Ran, MAX_EMPTY_READS, MAX_READS,
};
use crate::driver::acu::state::{self, AcuSecureKeyMaterial, AcuSecureView, PdStateView};
use crate::driver::acu::steps::{self, ReplyFrame};
use crate::driver::feed::{self, Feed};
use crate::error::{Error, SecureSessionError};
use crate::packet::codec;
use crate::packet::codec::PacketView;
use crate::packet::control::Sqn;
use crate::reply::{ReplyCode, ReplyView};
use crate::secure::frame;
use crate::secure::session::SecureView;
use crate::transport::IoEvent;
use crate::{MAX_BUS_PACKET, SOM};

verus! {

/// Number of writes.
pub open spec fn count_writes(io: Seq<IoEvent>) -> nat
    decreases io.len(),
{
    if io.len() == 0 {
        0
    } else {
        count_writes(io.drop_first()) + if io[0] is Write {
            1nat
        } else {
            0
        }
    }
}

/// Every write puts `frame` on the bus.
pub open spec fn writes_only(io: Seq<IoEvent>, frame: Seq<u8>) -> bool {
    forall|i: int|
        0 <= i < io.len() && (#[trigger] io[i]) is Write ==> io[i]->Write_0 == frame
}

/// Listening does not write.
proof fn lemma_listen_reads(
    rx: Seq<u8>,
    start: u64,
    empty: nat,
    reads: nat,
    delay: u32,
    feed: Feed,
    frame: Seq<u8>,
)
    ensures
        model::listen(rx, start, empty, reads, delay, feed) matches Some(h) ==> {
            &&& count_writes(feed.io) == count_writes(h.rest.io)
            &&& writes_only(h.rest.io, frame) ==> writes_only(feed.io, frame)
        },
    decreases feed.io.len(),
{
    if feed.io.len() > 0 {
        let later = feed.after_io();
        if let IoEvent::Read(Ok(more)) = feed.io[0] {
            lemma_listen_reads(
                model::scan_reply(rx + more).1,
                start,
                model::empty_reads(empty, more),
                reads + 1,
                delay,
                later.after_clock(),
                frame,
            );
        }
        if feed.io[0] is Read && writes_only(later.io, frame) {
            assert forall|i: int|
                0 <= i < feed.io.len() && (#[trigger] feed.io[i]) is Write implies
                feed.io[i]->Write_0 == frame by {
                assert(later.io[i - 1] == feed.io[i]);
            }
        }
    }
}

/// One attempt writes once.
pub proof fn lemma_try_once_writes(
    frame: Seq<u8>,
    sqn: Sqn,
    pd: PdStateView,
    rx: Seq<u8>,
    delay: u32,
    feed: Feed,
)
    ensures
        model::try_once(frame, sqn, pd, rx, delay, feed) matches Some(got) ==> {
            &&& count_writes(feed.io) == 1 + count_writes(got.rest.io)
            &&& writes_only(got.rest.io, frame) ==> writes_only(feed.io, frame)
        },
{
    reveal(model::try_once);
    if feed.io.len() > 0 {
        let later = feed.after_io();
        if later.clock.len() > 0 {
            lemma_listen_reads(
                model::scan_reply(rx).1,
                later.clock[0],
                0,
                0,
                delay,
                later.after_clock(),
                frame,
            );
        }
        if writes_only(later.io, frame) && feed.io[0] is Write && feed.io[0]->Write_0 == frame {
            assert forall|i: int|
                0 <= i < feed.io.len() && (#[trigger] feed.io[i]) is Write implies
                feed.io[i]->Write_0 == frame by {
                if i > 0 {
                    assert(later.io[i - 1] == feed.io[i]);
                }
            }
        }
    }
}

/// Attempts write the same frame, once each.
proof fn lemma_attempts_write(
    frame: Seq<u8>,
    secured: bool,
    sqn: Sqn,
    started: u64,
    failed: nat,
    pd: PdStateView,
    rx: Seq<u8>,
    limits: Limits,
    feed: Feed,
)
    requires
        failed <= limits.max_retries,
    ensures
        model::attempt(frame, secured, sqn, started, failed, pd, rx, limits, feed) matches Some(
            ran,
        ) ==> {
            &&& count_writes(feed.io) <= limits.max_retries + 1 - failed + count_writes(
                ran.rest.io,
            )
            &&& count_writes(feed.io) > count_writes(ran.rest.io)
            &&& writes_only(ran.rest.io, frame) ==> writes_only(feed.io, frame)
        },
    decreases limits.max_retries - failed,
{
    lemma_try_once_writes(frame, sqn, pd, rx, limits.reply_delay_ms, feed);
    if let Some(got) = model::try_once(frame, sqn, pd, rx, limits.reply_delay_ms, feed) {
        if got.outcome is Ok && got.rest.clock.len() > 0 {
            let now = got.rest.clock[0];
            if model::verdict(
                got.outcome->Ok_0,
                got.pd,
                secured,
                failed,
                started,
                limits,
                now,
            ) is None {
                lemma_attempts_write(
                    frame,
                    secured,
                    sqn,
                    started,
                    failed + 1,
                    got.pd,
                    got.rx,
                    limits,
                    got.rest.after_clock(),
                );
            }
        }
    }
}

/// Every attempt of an exchange sends the same frame, and so asks the PD for the same
/// reply: the frame of the command under the next sequence number. It is sent at most once
/// more than the retries that are allowed, and at least once if the PD is not off-line and
/// the command can be encoded at all. Otherwise nothing is sent.
pub proof fn law_retries_reuse_the_frame(
    addr: u8,
    pd: PdStateView,
    cmd: CommandView,
    rx: Seq<u8>,
    limits: Limits,
    feed: Feed,
    ran: Ran<ExchangeView>,
)
    requires
        model::exchange(addr, pd, cmd, rx, limits, feed) == Some(ran),
        ran.rest == Feed::nothing(),
    ensures
        ({
            let frame = steps::request(addr, pd, pd.next_sqn, cmd).0;
            if pd.is_offline(feed.clock[0]) || frame is Err {
                feed.io == Seq::<IoEvent>::empty()
            } else {
                &&& writes_only(feed.io, frame->Ok_0)
                &&& 1 <= count_writes(feed.io) <= limits.max_retries + 1
            }
        }),
{
    let (frame, pd1) = steps::request(addr, pd, pd.next_sqn, cmd);
    if frame is Ok {
        lemma_attempts_write(
            frame->Ok_0,
            pd.is_secure(),
            pd.next_sqn,
            feed.clock[0],
            0,
            pd1,
            rx,
            limits,
            feed.after_clock(),
        );
    }
}

/// An exchange with a PD that has been silent for too long ends at once: nothing is sent,
/// nothing is read, and nothing is forgotten.
pub proof fn law_offline_pd_is_not_asked(
    addr: u8,
    pd: PdStateView,
    cmd: CommandView,
    rx: Seq<u8>,
    limits: Limits,
    feed: Feed,
)
    requires
        feed.clock.len() > 0,
        pd.is_offline(feed.clock[0]),
    ensures
        model::exchange(addr, pd, cmd, rx, limits, feed) == Some(
            Ran {
                outcome: Ok(ExchangeView::Offline),
                pd,
                rx,
                rest: feed.after_clock(),
            },
        ),
{
}

/// What attempts do to the bookkeeping.
proof fn lemma_attempts_keep(
    frame: Seq<u8>,
    secured: bool,
    sqn: Sqn,
    started: u64,
    failed: nat,
    pd: PdStateView,
    rx: Seq<u8>,
    limits: Limits,
    feed: Feed,
)
    ensures
        model::attempt(frame, secured, sqn, started, failed, pd, rx, limits, feed) matches Some(
            ran,
        ) ==> {
            &&& ran.pd.use_crc == pd.use_crc
            &&& ran.pd.next_sqn == if ran.outcome matches Ok(ExchangeView::Reply(_)) {
                pd.next_sqn.spec_next()
            } else {
                pd.next_sqn
            }
            &&& match ran.outcome {
                Ok(ExchangeView::Reply(reply)) => reply !is Busy && ran.pd.seen,
                Ok(ExchangeView::Busy) => ran.pd.seen,
                Ok(_) => secured ==> ran.pd.secure is None,
                Err(_) => true,
            }
            &&& !(ran.outcome matches Ok(ExchangeView::Reply(_)) || ran.outcome matches Ok(
                ExchangeView::Busy,
            )) ==> ran.pd.seen == pd.seen && ran.pd.last_seen_ms == pd.last_seen_ms
        },
    decreases limits.max_retries - failed,
{
    reveal(model::try_once);
    if let Some(got) = model::try_once(frame, sqn, pd, rx, limits.reply_delay_ms, feed) {
        if got.outcome is Ok && got.rest.clock.len() > 0 {
            let now = got.rest.clock[0];
            if model::verdict(
                got.outcome->Ok_0,
                got.pd,
                secured,
                failed,
                started,
                limits,
                now,
            ) is None {
                lemma_attempts_keep(
                    frame,
                    secured,
                    sqn,
                    started,
                    failed + 1,
                    got.pd,
                    got.rx,
                    limits,
                    got.rest.after_clock(),
                );
            }
        }
    }
}

/// Only a reply other than `osdp_BUSY` advances the sequence number, and then by one.
/// `osdp_BUSY`, a timeout, an off-line PD and every error leave it. A reply, and
/// `osdp_BUSY`, count as a sign of life; nothing else does.
pub proof fn law_only_a_reply_advances(
    addr: u8,
    pd: PdStateView,
    cmd: CommandView,
    rx: Seq<u8>,
    limits: Limits,
    feed: Feed,
    ran: Ran<ExchangeView>,
)
    requires
        model::exchange(addr, pd, cmd, rx, limits, feed) == Some(ran),
    ensures
        ran.pd.use_crc == pd.use_crc,
        match ran.outcome {
            Ok(ExchangeView::Reply(reply)) => {
                &&& reply !is Busy
                &&& ran.pd.next_sqn == pd.next_sqn.spec_next()
                &&& ran.pd.seen
            },
            Ok(ExchangeView::Busy) => ran.pd.next_sqn == pd.next_sqn && ran.pd.seen,
            _ => {
                &&& ran.pd.next_sqn == pd.next_sqn
                &&& ran.pd.seen == pd.seen
                &&& ran.pd.last_seen_ms == pd.last_seen_ms
            },
        },
{
    let (frame, pd1) = steps::request(addr, pd, pd.next_sqn, cmd);
    if frame is Ok {
        lemma_attempts_keep(
            frame->Ok_0,
            pd.is_secure(),
            pd.next_sqn,
            feed.clock[0],
            0,
            pd1,
            rx,
            limits,
            feed.after_clock(),
        );
    }
}

/// A secured command that goes unanswered ends the session: after a timeout, or when the PD
/// is found off-line after the command was sent, a new handshake is needed.
pub proof fn law_unanswered_secure_command_ends_session(
    addr: u8,
    pd: PdStateView,
    cmd: CommandView,
    rx: Seq<u8>,
    limits: Limits,
    feed: Feed,
    ran: Ran<ExchangeView>,
)
    requires
        model::exchange(addr, pd, cmd, rx, limits, feed) == Some(ran),
        pd.is_secure(),
        !pd.is_offline(feed.clock[0]),
        ran.outcome == Ok::<ExchangeView, Error>(ExchangeView::Timeout) || ran.outcome == Ok::<
            ExchangeView,
            Error,
        >(ExchangeView::Offline),
    ensures
        ran.pd.secure is None,
        !ran.pd.is_secure(),
{
    let (frame, pd1) = steps::request(addr, pd, pd.next_sqn, cmd);
    if frame is Ok {
        lemma_attempts_keep(
            frame->Ok_0,
            true,
            pd.next_sqn,
            feed.clock[0],
            0,
            pd1,
            rx,
            limits,
            feed.after_clock(),
        );
    }
}

/// A reply that does not echo the sequence number, and is not `osdp_BUSY`, is refused and
/// changes nothing. A reply that is accepted echoes it, or is `osdp_BUSY`.
pub proof fn law_reply_echoes_sqn(
    pd: PdStateView,
    sqn: Sqn,
    rx: Seq<u8>,
    delay: u32,
    feed: Feed,
    f: ReplyFrame,
)
    requires
        model::hear(rx, delay, feed) is Some,
        model::hear(rx, delay, feed)->0.outcome == Ok::<ReplyFrame, Error>(f),
    ensures
        ({
            let got = model::receive_one(pd, sqn, rx, delay, feed)->0;
            if f.code != ReplyCode::Busy && f.sqn != sqn {
                &&& got.outcome == Err::<ReplyView, Error>(
                    Error::SqnMismatch { expected: sqn.spec_value(), got: f.sqn.spec_value() },
                )
                &&& got.pd == pd
            } else {
                got.outcome == match steps::open_reply(pd, f).0 {
                    Ok(data) => crate::reply::reply_decode(f.code, data),
                    Err(e) => Err(e),
                }
            }
        }),
{
}

/// In a secure session, DATA is taken only from a reply that is secured in the PD's
/// direction and whose MAC is right under the session. A reply in the clear, one secured in
/// the wrong direction, one with a wrong MAC, and one with DATA in the clear are refused,
/// and end the session.
pub proof fn law_secure_reply_is_authentic(pd: PdStateView, s: SecureView, f: ReplyFrame)
    requires
        pd.secure == Some(AcuSecureView::Secure(s)),
        f.well_formed(),
    ensures
        ({
            let (data, after) = steps::open_reply(pd, f);
            let p = codec::parse_frame(f.raw)->Ok_0.0;
            let covered = f.raw.take(
                f.raw.len() - codec::trailer_len(p.ctrl) - codec::MAC_LEN,
            );
            &&& data is Err ==> after.secure is None
            &&& data is Ok ==> {
                &&& f.scb is Some
                &&& f.scb->0.ty is Scs16 || f.scb->0.ty is Scs18
                &&& p.mac == Some(
                    frame::mac_of(s, frame::Direction::PdToAcu, covered).take(
                        codec::MAC_LEN as int,
                    ),
                )
                &&& f.scb->0.ty is Scs16 ==> f.data.len() == 0
                &&& after.is_secure()
            }
            &&& f.scb is None ==> data == Err::<Seq<u8>, Error>(
                Error::SecureSession(SecureSessionError::NotSecure),
            )
            &&& f.scb matches Some(scb) ==> !(scb.ty is Scs16 || scb.ty is Scs18) ==> data == Err::<
                Seq<u8>,
                Error,
            >(Error::BadSecurityBlock(scb.ty.spec_byte()))
        }),
{
}

/// Without key material there is no handshake: nothing is sent or read, and nothing
/// changes.
pub proof fn law_no_key_no_handshake(
    addr: u8,
    pd: PdStateView,
    draw: Result<Seq<u8>, Error>,
    rx: Seq<u8>,
    delay: u32,
    feed: Feed,
)
    ensures
        model::establish(addr, pd, None, draw, rx, delay, feed) == Some(
            Ran::<()> {
                outcome: Err(Error::SecureSession(SecureSessionError::KeyUnavailable)),
                pd,
                rx,
                rest: feed,
            },
        ),
{
}

/// A handshake that succeeds leaves a secure session, advances the sequence number twice,
/// and counts as a sign of life.
pub proof fn law_established_is_secure(
    addr: u8,
    pd: PdStateView,
    granted: Option<AcuSecureKeyMaterial>,
    draw: Result<Seq<u8>, Error>,
    rx: Seq<u8>,
    delay: u32,
    feed: Feed,
    ran: Ran<()>,
)
    requires
        model::establish(addr, pd, granted, draw, rx, delay, feed) == Some(ran),
        ran.outcome is Ok,
    ensures
        ran.pd.is_secure(),
        ran.pd.next_sqn == pd.next_sqn.spec_next().spec_next(),
        ran.pd.use_crc == pd.use_crc,
        ran.pd.seen,
        granted is Some,
        draw is Ok,
        ran.pd.session()->0.scbk == granted->0.scbk@,
{
}

/// Bytes without a start byte.
pub open spec fn is_noise(bytes: Seq<u8>) -> bool {
    forall|i: int| 0 <= i < bytes.len() ==> bytes[i] != SOM
}

/// Noise before something that is complete does not change what is found.
pub proof fn law_noise_is_skipped(noise: Seq<u8>, rx: Seq<u8>)
    requires
        is_noise(noise),
        model::scan_reply(rx).0 != Ok::<Option<ReplyFrame>, Error>(None),
    ensures
        model::scan_reply(noise + rx) == model::scan_reply(rx),
{
    bytes::lemma_first_index(rx, SOM);
    let at = bytes::first_index(rx, SOM);
    let all = noise + rx;
    assert forall|i: int| 0 <= i < noise.len() + at implies all[i] != SOM by {
        if i >= noise.len() {
            assert(all[i] == rx[i - noise.len()]);
        }
    }
    bytes::lemma_first_index_is(all, SOM, noise.len() + at);
    assert(all.skip(noise.len() + at as int) =~= rx.skip(at as int));
}

/// A reply that has arrived whole is found.
proof fn lemma_reply_is_found(p: PacketView, code: ReplyCode, rest: Seq<u8>)
    requires
        codec::frame_well_formed(p),
        p.code == code.spec_byte(),
    ensures
        model::scan_reply(codec::frame_bytes(p) + rest) == (
            Ok::<Option<ReplyFrame>, Error>(
                Some(
                    ReplyFrame {
                        code,
                        sqn: p.ctrl.sqn,
                        scb: p.scb,
                        data: p.data,
                        raw: codec::frame_bytes(p),
                    },
                ),
            ),
            rest,
        ),
{
    let f = codec::frame_bytes(p);
    let rx = f + rest;
    codec::law_frame_round_trip(p, rest);
    crate::reply::law_reply_code_round_trip(code, 0);
    assert(f[0] == SOM);
    bytes::lemma_first_index_is(rx, SOM, 0);
    assert(rx.skip(0) =~= rx);
    assert(rx.take(f.len() as int) =~= f);
    assert(rx.skip(f.len() as int) =~= rest);
}

/// A reply is found behind any bytes that hold no start byte, and what follows it is left
/// for later.
pub proof fn law_reply_is_found_behind_noise(
    noise: Seq<u8>,
    p: PacketView,
    code: ReplyCode,
    rest: Seq<u8>,
)
    requires
        is_noise(noise),
        codec::frame_well_formed(p),
        p.code == code.spec_byte(),
    ensures
        model::scan_reply(noise + codec::frame_bytes(p) + rest) == (
            Ok::<Option<ReplyFrame>, Error>(
                Some(
                    ReplyFrame {
                        code,
                        sqn: p.ctrl.sqn,
                        scb: p.scb,
                        data: p.data,
                        raw: codec::frame_bytes(p),
                    },
                ),
            ),
            rest,
        ),
{
    let rx = codec::frame_bytes(p) + rest;
    lemma_reply_is_found(p, code, rest);
    law_noise_is_skipped(noise, rx);
    assert(noise + codec::frame_bytes(p) + rest =~= noise + rx);
}

/// An attempt that times out leaves the bookkeeping alone.
pub proof fn law_timed_out_attempt_keeps_state(
    frame: Seq<u8>,
    sqn: Sqn,
    pd: PdStateView,
    rx: Seq<u8>,
    delay: u32,
    feed: Feed,
    got: Ran<Option<ReplyView>>,
)
    requires
        model::try_once(frame, sqn, pd, rx, delay, feed) == Some(got),
        got.outcome == Ok::<Option<ReplyView>, Error>(None),
    ensures
        got.pd == pd,
{
    reveal(model::try_once);
}

/// A bus that stays silent is given up on: with nothing complete received, reads that
/// bring nothing end an attempt with a timeout no later than the last one tolerated.
pub proof fn law_silence_times_out(rx: Seq<u8>, delay: u32, feed: Feed)
    requires
        model::scan_reply(rx) == (Ok::<Option<ReplyFrame>, Error>(None), rx),
        feed.io.len() >= MAX_EMPTY_READS,
        forall|i: int|
            0 <= i < MAX_EMPTY_READS ==> #[trigger] feed.io[i] == IoEvent::Read(
                Ok::<Seq<u8>, Error>(Seq::empty()),
            ),
        feed.clock.len() > MAX_EMPTY_READS,
    ensures
        model::hear(rx, delay, feed) is Some,
        model::hear(rx, delay, feed)->0.outcome == Err::<ReplyFrame, Error>(Error::Timeout),
        model::hear(rx, delay, feed)->0.rx == rx,
        feed.io.len() - MAX_EMPTY_READS <= model::hear(rx, delay, feed)->0.rest.io.len()
            < feed.io.len(),
{
    let start = feed.clock[0];
    let a = feed.after_clock();
    let b = a.after_io().after_clock();
    let c = b.after_io().after_clock();
    let d = c.after_io().after_clock();
    assert(a.io[0] == feed.io[0] && b.io[0] == feed.io[1] && c.io[0] == feed.io[2] && d.io[0]
        == feed.io[3]);
    assert(rx + Seq::<u8>::empty() =~= rx);
    assert(model::listen(rx, start, 3, 3, delay, d) is Some);
    assert(model::listen(rx, start, 2, 2, delay, c) is Some);
    assert(model::listen(rx, start, 1, 1, delay, b) is Some);
    assert(model::listen(rx, start, 0, 0, delay, a) is Some);
}

/// Listening takes no more reads than are left.
proof fn lemma_listen_is_bounded(
    rx: Seq<u8>,
    start: u64,
    empty: nat,
    reads: nat,
    delay: u32,
    feed: Feed,
)
    requires
        reads < MAX_READS,
    ensures
        model::listen(rx, start, empty, reads, delay, feed) matches Some(h)
            ==> feed.io.len() - h.rest.io.len() <= MAX_READS - reads,
    decreases feed.io.len(),
{
    if feed.io.len() > 0 {
        if let IoEvent::Read(Ok(more)) = feed.io[0] {
            if reads + 1 < MAX_READS {
                lemma_listen_is_bounded(
                    model::scan_reply(rx + more).1,
                    start,
                    model::empty_reads(empty, more),
                    reads + 1,
                    delay,
                    feed.after_io().after_clock(),
                );
            }
        }
    }
}

/// Whatever the transport delivers, waiting for a reply takes a bounded number of reads.
pub proof fn law_reads_are_bounded(rx: Seq<u8>, delay: u32, feed: Feed, h: Heard)
    requires
        model::hear(rx, delay, feed) == Some(h),
    ensures
        feed.io.len() - h.rest.io.len() <= MAX_READS,
{
    lemma_listen_is_bounded(
        model::scan_reply(rx).1,
        feed.clock[0],
        0,
        0,
        delay,
        feed.after_clock(),
    );
}

/// Listening to `n` reads of noise, by the end of which the time is up.
proof fn lemma_listen_to_noise(
    rx: Seq<u8>,
    start: u64,
    empty: nat,
    reads: nat,
    delay: u32,
    feed: Feed,
    n: nat,
)
    requires
        is_noise(rx),
        0 < n <= feed.io.len(),
        n <= feed.clock.len(),
        forall|i: int|
            0 <= i < n ==> (#[trigger] feed.io[i] matches IoEvent::Read(Ok(more)) && is_noise(
                more,
            )),
        state::elapsed(feed.clock[n - 1], start) >= delay || reads + n
            >= MAX_READS,
    ensures
        model::listen(rx, start, empty, reads, delay, feed) matches Some(h) && {
            &&& h.outcome == Err::<ReplyFrame, Error>(Error::Timeout)
            &&& is_noise(h.rx)
            &&& feed.io.len() - n <= h.rest.io.len()
        },
    decreases n,
{
    assert(feed.io[0] is Read);
    let more = feed.io[0]->Read_0->Ok_0;
    let all = rx + more;
    assert(is_noise(all));
    bytes::lemma_first_index(all, SOM);
    assert(model::scan_reply(all) == (Ok::<Option<ReplyFrame>, Error>(None), all));
    let empty1 = model::empty_reads(empty, more);
    if !model::time_is_up(feed.clock[0], start, delay, empty1, reads + 1) {
        let later = feed.after_io().after_clock();
        assert forall|i: int| 0 <= i < n - 1 implies (#[trigger] later.io[i] matches IoEvent::Read(
            Ok(more),
        ) && is_noise(more)) by {
            assert(later.io[i] == feed.io[i + 1]);
        }
        lemma_listen_to_noise(all, start, empty1, reads + 1, delay, later, (n - 1) as nat);
    }
}

/// A line that delivers nothing but noise is given up on, however much of it there is: by
/// the read after which the reply delay is found to be over, or else by the last read that
/// is allowed, waiting for a reply ends with a timeout that leaves the bookkeeping alone.
pub proof fn law_noise_times_out(pd: PdStateView, rx: Seq<u8>, delay: u32, feed: Feed, n: nat)
    requires
        is_noise(rx),
        0 < n <= feed.io.len(),
        n < feed.clock.len(),
        forall|i: int|
            0 <= i < n ==> (#[trigger] feed.io[i] matches IoEvent::Read(Ok(more)) && is_noise(
                more,
            )),
        state::elapsed(feed.clock[n as int], feed.clock[0]) >= delay || n
            >= MAX_READS,
    ensures
        model::receive(pd, rx, delay, feed) matches Some(ran) && {
            &&& ran.outcome == Err::<ReplyView, Error>(Error::Timeout)
            &&& ran.pd == pd
            &&& feed.io.len() - n <= ran.rest.io.len()
        },
{
    bytes::lemma_first_index(rx, SOM);
    assert(model::scan_reply(rx) == (Ok::<Option<ReplyFrame>, Error>(None), rx));
    lemma_listen_to_noise(rx, feed.clock[0], 0, 0, delay, feed.after_clock(), n);
}

/// A handshake that the PD fails, or that is found to have failed, is forgotten: a wrong
/// client cryptogram, a wrong initial R-MAC, SCS_14 with the failure status and `osdp_NAK`
/// for the security block all leave no secure state behind.
pub proof fn law_failed_handshake_is_forgotten(pd: PdStateView, f: ReplyFrame)
    requires
        steps::check_sqn(pd.next_sqn, f.code, f.sqn) is Ok,
    ensures
        pd.secure matches Some(AcuSecureView::Challenged { session, key }) ==> {
            let (r, after) = steps::judge_ccrypt(pd, f);
            (f.code is CCrypt && r is Err) ==> after == pd.with_secure(None)
        },
        pd.secure matches Some(AcuSecureView::Cryptogrammed { session, key }) ==> {
            let (r, after) = steps::judge_rmac_i(pd, f);
            &&& (f.code is RMacI && r is Err) ==> after == pd.with_secure(None)
            &&& (f.code is Nak && f.data.len() > 0 && f.data[0] == 5) ==> {
                &&& r == Err::<(), Error>(Error::Nak { code: 5 })
                &&& after == pd.with_secure(None)
            }
            &&& (f.code !is Nak && steps::check_scs14(f.scb) == Ok::<
                steps::Scs14Status,
                Error,
            >(steps::Scs14Status::Failure)) ==> {
                &&& r == Err::<(), Error>(
                    Error::SecureSession(SecureSessionError::BadCryptogram),
                )
                &&& after == pd.with_secure(None)
            }
        },
{
}

/// Another attempt is made only while retries are left, the overall budget, if there is one,
/// is not used up, and the PD is not off-line.
pub proof fn law_attempts_stay_within_limits(
    answer: Option<ReplyView>,
    pd: PdStateView,
    secured: bool,
    failed: nat,
    started: u64,
    limits: Limits,
    now: u64,
)
    ensures
        model::verdict(answer, pd, secured, failed, started, limits, now) is None <==> {
            &&& answer is None
            &&& failed < limits.max_retries
            &&& limits.overall_budget_ms == 0 || now < started + limits.overall_budget_ms
            &&& !pd.is_offline(now)
        },
{
}

/// Scanning can be taken up again where it left off when more bytes have arrived, and what
/// it has found does not change with them.
pub proof fn lemma_scan_resumes(rx: Seq<u8>, more: Seq<u8>)
    ensures
        ({
            let (found, rx1) = model::scan_reply(rx);
            model::scan_reply(rx + more) == if found == Ok::<Option<ReplyFrame>, Error>(None) {
                model::scan_reply(rx1 + more)
            } else {
                (found, rx1 + more)
            }
        }),
    decreases rx.len(),
{
    bytes::lemma_first_index(rx, SOM);
    let at = bytes::first_index(rx, SOM);
    if at < rx.len() {
        let buf = rx.skip(at as int);
        assert forall|i: int| 0 <= i < at implies (rx + more)[i] != SOM by {
            assert((rx + more)[i] == rx[i]);
        }
        bytes::lemma_first_index_is(rx + more, SOM, at);
        assert((rx + more).skip(at as int) =~= buf + more);
        bytes::lemma_first_index_is(buf + more, SOM, 0);
        assert((buf + more).skip(0) =~= buf + more);
        assert(model::scan_reply(rx + more) == model::scan_reply(buf + more));
        if !(codec::parse_frame(buf) matches Err(Error::Truncated { .. })) {
            codec::law_parse_is_final(buf, more);
            assert((buf + more).skip(1) =~= buf.skip(1) + more);
            lemma_scan_resumes(buf.skip(1), more);
        }
        if let Ok((p, used)) = codec::parse_frame(buf) {
            codec::law_parse_is_local(buf);
            assert((buf + more).take(used) =~= buf.take(used));
            assert((buf + more).skip(used) =~= buf.skip(used) + more);
        }
    }
}

/// Listening finds what scanning all the bytes at once would find, and leaves the readings
/// that follow.
proof fn lemma_listen_scans(
    rx: Seq<u8>,
    start: u64,
    empty: nat,
    reads: nat,
    delay: u32,
    feed: Feed,
    bytes: Seq<u8>,
)
    requires
        model::listen(rx, start, empty, reads, delay, feed) is Some,
        model::listen(rx, start, empty, reads, delay, feed)->0.rest.io.len() == 0,
        feed::delivers(feed.io, bytes),
    ensures
        ({
            let h = model::listen(rx, start, empty, reads, delay, feed)->0;
            let (found, rx1) = model::scan_reply(rx + bytes);
            &&& h.rx == rx1
            &&& h.rest.clock.is_suffix_of(feed.clock)
            &&& match found {
                Err(e) => h.outcome == Err::<ReplyFrame, Error>(e),
                Ok(Some(f)) => h.outcome == Ok::<ReplyFrame, Error>(f),
                Ok(None) => h.outcome == Err::<ReplyFrame, Error>(Error::Timeout),
            }
        }),
    decreases feed.io.len(),
{
    let rest = feed.after_io();
    let later = rest.after_clock();
    let more = feed.io[0]->Read_0->Ok_0;
    feed::lemma_delivers(feed.io, bytes);
    let (found, rx1) = model::scan_reply(rx + more);
    let empty1 = model::empty_reads(empty, more);
    assert(rx + bytes =~= rx + more + feed::bytes_read(rest.io));
    if found == Ok::<Option<ReplyFrame>, Error>(None) && !model::time_is_up(
        feed.clock[0],
        start,
        delay,
        empty1,
        reads + 1,
    ) {
        lemma_listen_scans(
            rx1,
            start,
            empty1,
            reads + 1,
            delay,
            later,
            feed::bytes_read(rest.io),
        );
        lemma_scan_resumes(rx + more, feed::bytes_read(rest.io));
        let h = model::listen(rx1, start, empty1, reads + 1, delay, later)->0;
        assert(h.rest.clock.is_suffix_of(feed.clock)) by {
            assert(later.clock =~= feed.clock.drop_first());
        }
    } else {
        assert(rest.io =~= Seq::<IoEvent>::empty());
        assert(rx + more + feed::bytes_read(rest.io) =~= rx + more);
    }
}

/// It does not matter in how many pieces a reply arrives: waiting for one ends with what
/// stands first in all the bytes received, and where nothing complete stands in them it
/// ends with a timeout that keeps them.
pub proof fn law_pieces_make_a_reply(
    rx: Seq<u8>,
    delay: u32,
    feed: Feed,
    h: Heard,
    bytes: Seq<u8>,
)
    requires
        model::hear(rx, delay, feed) == Some(h),
        h.rest.io.len() == 0,
        feed::delivers(feed.io, bytes),
    ensures
        h.rest.clock.is_suffix_of(feed.clock),
        ({
            let (found, rx1) = model::scan_reply(rx + bytes);
            &&& h.rx == rx1
            &&& match found {
                Err(e) => h.outcome == Err::<ReplyFrame, Error>(e),
                Ok(Some(f)) => h.outcome == Ok::<ReplyFrame, Error>(f),
                Ok(None) => h.outcome == Err::<ReplyFrame, Error>(Error::Timeout),
            }
        }),
{
    let (found, rx1) = model::scan_reply(rx);
    if found == Ok::<Option<ReplyFrame>, Error>(None) {
        lemma_listen_scans(rx1, feed.clock[0], 0, 0, delay, feed.after_clock(), bytes);
        lemma_scan_resumes(rx, bytes);
    } else {
        assert(feed.io =~= Seq::<IoEvent>::empty());
        assert(rx + bytes =~= rx);
    }
}

/// A frame that has arrived in part keeps waiting.
pub proof fn lemma_part_waits(p: PacketView, n: int)
    requires
        codec::frame_well_formed(p),
        0 <= n < codec::frame_bytes(p).len(),
    ensures
        model::scan_reply(codec::frame_bytes(p).take(n)) == (
            Ok::<Option<ReplyFrame>, Error>(None),
            codec::frame_bytes(p).take(n),
        ),
{
    let part = codec::frame_bytes(p).take(n);
    codec::law_part_of_frame_is_truncated(p, n);
    bytes::lemma_first_index(part, SOM);
    if n > 0 {
        assert(part[0] == codec::frame_bytes(p)[0]);
        assert(codec::frame_bytes(p)[0] == SOM);
        bytes::lemma_first_index_is(part, SOM, 0);
        assert(part.skip(0) =~= part);
    }
}

/// Noise before bytes that hold nothing complete does not complete anything.
pub proof fn lemma_noise_waits(noise: Seq<u8>, rx: Seq<u8>)
    requires
        is_noise(noise),
        model::scan_reply(rx).0 == Ok::<Option<ReplyFrame>, Error>(None),
    ensures
        model::scan_reply(noise + rx).0 == Ok::<Option<ReplyFrame>, Error>(None),
{
    bytes::lemma_first_index(rx, SOM);
    let at = bytes::first_index(rx, SOM);
    let all = noise + rx;
    assert forall|i: int| 0 <= i < noise.len() + at implies all[i] != SOM by {
        if i >= noise.len() {
            assert(all[i] == rx[i - noise.len()]);
        }
    }
    bytes::lemma_first_index_is(all, SOM, noise.len() + at);
    assert(all.skip(noise.len() + at as int) =~= rx.skip(at as int));
}

/// What a call comes to whose reads complete the frame `f`.
proof fn lemma_receive_takes(
    pd: PdStateView,
    rx: Seq<u8>,
    delay: u32,
    feed: Feed,
    ran: Ran<ReplyView>,
    bytes: Seq<u8>,
    f: ReplyFrame,
    left: Seq<u8>,
)
    requires
        model::receive(pd, rx, delay, feed) == Some(ran),
        ran.rest == Feed::nothing(),
        feed::delivers(feed.io, bytes),
        model::scan_reply(rx + bytes) == (Ok::<Option<ReplyFrame>, Error>(Some(f)), left),
    ensures
        ran.rx == left,
        ({
            let (data, pd1) = steps::open_reply(pd, f);
            match data {
                Err(e) => ran.outcome == Err::<ReplyView, Error>(e) && ran.pd == pd1,
                Ok(d) => {
                    &&& ran.outcome == crate::reply::reply_decode(f.code, d)
                    &&& ran.pd == pd1.seen_at(feed.clock.last()).bumped()
                },
            }
        }),
{
    let heard = model::hear(rx, delay, feed)->0;
    law_pieces_make_a_reply(rx, delay, feed, heard, bytes);
    if steps::open_reply(pd, f).0 is Ok {
        assert(heard.rest.after_clock().clock == Seq::<u64>::empty());
        assert(heard.rest.clock.drop_first().len() == 0);
        assert(heard.rest.clock[0] == feed.clock.last());
    }
}

/// A reply may be split over two calls. The call that sees only part of it times out and
/// leaves the bookkeeping alone. The call that sees the rest gives what one call on the
/// whole reply gives, and leaves the same bookkeeping if the clock says the same at the
/// end.
pub proof fn law_split_reply_is_received(
    pd: PdStateView,
    p: PacketView,
    code: ReplyCode,
    x: Seq<u8>,
    y: Seq<u8>,
    delay: u32,
    first: Feed,
    a: Ran<ReplyView>,
    second: Feed,
    b: Ran<ReplyView>,
    whole: Feed,
    c: Ran<ReplyView>,
)
    requires
        codec::frame_well_formed(p),
        p.code == code.spec_byte(),
        codec::frame_bytes(p) == x + y,
        y.len() > 0,
        feed::delivers(first.io, x),
        model::receive(pd, Seq::empty(), delay, first) == Some(a),
        a.rest.io.len() == 0,
        feed::delivers(second.io, y),
        model::receive(a.pd, a.rx, delay, second) == Some(b),
        b.rest == Feed::nothing(),
        feed::delivers(whole.io, x + y),
        model::receive(pd, Seq::empty(), delay, whole) == Some(c),
        c.rest == Feed::nothing(),
        second.clock.last() == whole.clock.last(),
    ensures
        a.outcome == Err::<ReplyView, Error>(Error::Timeout),
        a.pd == pd,
        a.rx == x,
        b.outcome == c.outcome,
        b.pd == c.pd,
        b.rx == c.rx,
        b.rx == Seq::<u8>::empty(),
{
    let none = Seq::<u8>::empty();
    let f = ReplyFrame {
        code,
        sqn: p.ctrl.sqn,
        scb: p.scb,
        data: p.data,
        raw: codec::frame_bytes(p),
    };
    assert(none + codec::frame_bytes(p) + none =~= x + y);
    law_reply_is_found_behind_noise(none, p, code, none);
    assert(none + x =~= x);
    assert(none + (x + y) =~= x + y);
    assert(x =~= codec::frame_bytes(p).take(x.len() as int));
    lemma_part_waits(p, x.len() as int);
    law_pieces_make_a_reply(none, delay, first, model::hear(none, delay, first)->0, x);
    lemma_receive_takes(pd, x, delay, second, b, y, f, none);
    lemma_receive_takes(pd, none, delay, whole, c, x + y, f, none);
}

/// While the clock stands still, a call that reads part of a reply and then finds nothing
/// more times out, leaves the bookkeeping alone and keeps what it has read. A call that then
/// reads the rest ends exactly as one call that reads the whole reply.
#[verifier::rlimit(50)]
pub proof fn law_reply_may_come_in_two_calls(
    pd: PdStateView,
    p: PacketView,
    code: ReplyCode,
    x: Seq<u8>,
    y: Seq<u8>,
    delay: u32,
    t: u64,
)
    requires
        codec::frame_well_formed(p),
        p.code == code.spec_byte(),
        codec::frame_bytes(p) == x + y,
        x.len() > 0,
        y.len() > 0,
        delay > 0,
    ensures
        ({
            let none = Seq::<u8>::empty();
            let silent = IoEvent::Read(Ok(none));
            let first = Feed {
                io: seq![IoEvent::Read(Ok(x)), silent, silent, silent, silent],
                clock: seq![t, t, t, t, t, t],
            };
            let second = Feed { io: seq![IoEvent::Read(Ok(y))], clock: seq![t, t] };
            let whole = Feed { io: seq![IoEvent::Read(Ok(x + y))], clock: seq![t, t] };
            &&& model::receive(pd, none, delay, first) == Some(
                Ran::<ReplyView> {
                    outcome: Err(Error::Timeout),
                    pd,
                    rx: x,
                    rest: Feed::nothing(),
                },
            )
            &&& model::receive(pd, none, delay, whole) is Some
            &&& model::receive(pd, x, delay, second) == model::receive(pd, none, delay, whole)
        }),
{
    let none = Seq::<u8>::empty();
    let silent = IoEvent::Read(Ok(none));
    let first = Feed {
        io: seq![IoEvent::Read(Ok(x)), silent, silent, silent, silent],
        clock: seq![t, t, t, t, t, t],
    };
    let second = Feed { io: seq![IoEvent::Read(Ok(y))], clock: seq![t, t] };
    let whole = Feed { io: seq![IoEvent::Read(Ok(x + y))], clock: seq![t, t] };
    let f = ReplyFrame {
        code,
        sqn: p.ctrl.sqn,
        scb: p.scb,
        data: p.data,
        raw: codec::frame_bytes(p),
    };
    assert(x =~= codec::frame_bytes(p).take(x.len() as int));
    lemma_part_waits(p, x.len() as int);
    assert(none + codec::frame_bytes(p) + none =~= x + y);
    law_reply_is_found_behind_noise(none, p, code, none);
    assert(none + x =~= x && x + none =~= x && none + (x + y) =~= x + y);
    assert(model::scan_reply(none) == (Ok::<Option<ReplyFrame>, Error>(None), none));
    assert(model::hear(none, delay, first) == Some(
        Heard { outcome: Err(Error::Timeout), rx: x, rest: Feed::nothing() },
    )) by {
        let a = first.after_clock();
        let b = a.after_io().after_clock();
        let c = b.after_io().after_clock();
        let d = c.after_io().after_clock();
        let e = d.after_io().after_clock();
        assert(e.after_io().after_clock() =~= Feed::nothing());
        let end = Heard { outcome: Err(Error::Timeout), rx: x, rest: Feed::nothing() };
        assert(model::listen(x, t, 3, 4, delay, e) == Some(end));
        assert(model::listen(x, t, 2, 3, delay, d) == Some(end));
        assert(model::listen(x, t, 1, 2, delay, c) == Some(end));
        assert(model::listen(x, t, 0, 1, delay, b) == Some(end));
        assert(model::listen(none, t, 0, 0, delay, a) == Some(end));
    }
    let left = Feed { io: Seq::empty(), clock: seq![t] };
    assert(second.after_clock().after_io() =~= left);
    assert(whole.after_clock().after_io() =~= left);
    let end = Heard { outcome: Ok(f), rx: none, rest: left };
    assert(model::hear(x, delay, second) == Some(end));
    assert(model::hear(none, delay, whole) == Some(end));
}

/// Every read brings something.
pub open spec fn every_read_brings(io: Seq<IoEvent>) -> bool {
    forall|i: int| 0 <= i < io.len() ==> (#[trigger] io[i])->Read_0->Ok_0.len() > 0
}

/// Listening to the rest of a frame of which `k` bytes have arrived.
proof fn lemma_listen_completes(
    p: PacketView,
    code: ReplyCode,
    k: int,
    start: u64,
    reads: nat,
    delay: u32,
    feed: Feed,
)
    requires
        codec::frame_well_formed(p),
        p.code == code.spec_byte(),
        reads <= k < codec::frame_bytes(p).len() <= MAX_READS,
        feed::delivers(feed.io, codec::frame_bytes(p).skip(k)),
        every_read_brings(feed.io),
        feed.io.len() <= feed.clock.len() + 1,
        forall|i: int|
            0 <= i < feed.io.len() - 1 ==> state::elapsed(#[trigger] feed.clock[i], start) < delay,
    ensures
        model::listen(codec::frame_bytes(p).take(k), start, 0, reads, delay, feed) == Some(
            Heard {
                outcome: Ok(
                    ReplyFrame {
                        code,
                        sqn: p.ctrl.sqn,
                        scb: p.scb,
                        data: p.data,
                        raw: codec::frame_bytes(p),
                    },
                ),
                rx: Seq::empty(),
                rest: Feed { io: Seq::empty(), clock: feed.clock.skip(feed.io.len() - 1) },
            },
        ),
    decreases feed.io.len(),
{
    let f = codec::frame_bytes(p);
    assert(feed.io.len() > 0);
    let rest = feed.after_io();
    let more = feed.io[0]->Read_0->Ok_0;
    feed::lemma_delivers(feed.io, f.skip(k));
    assert(more.len() > 0);
    let n = k + more.len();
    assert(f.skip(k).len() == more.len() + feed::bytes_read(rest.io).len());
    assert(f.take(k) + more =~= f.take(n)) by {
        assert forall|i: int| 0 <= i < more.len() implies more[i] == f[k + i] by {
            assert(f.skip(k)[i] == more[i]);
        }
    }
    if rest.io.len() == 0 {
        assert(f.take(n) =~= f + Seq::<u8>::empty());
        lemma_reply_is_found(p, code, Seq::empty());
        assert(rest =~= Feed { io: Seq::empty(), clock: feed.clock.skip(0) });
    } else {
        let later = rest.after_clock();
        assert forall|i: int| 0 <= i < later.io.len() implies (
        #[trigger] later.io[i])->Read_0->Ok_0.len() > 0 by {
            assert(later.io[i] == feed.io[i + 1]);
        }
        assert(feed::bytes_read(rest.io).len() > 0) by {
            assert(rest.io[0]->Read_0->Ok_0.len() > 0);
            feed::lemma_delivers(rest.io, feed::bytes_read(rest.io));
        }
        assert(f.skip(n) =~= feed::bytes_read(rest.io)) by {
            assert forall|i: int| 0 <= i < f.len() - n implies f.skip(n)[i] == feed::bytes_read(
                rest.io,
            )[i] by {
                assert(f.skip(k)[i + more.len()] == feed::bytes_read(rest.io)[i]);
            }
        }
        lemma_part_waits(p, n);
        assert forall|i: int| 0 <= i < later.io.len() - 1 implies state::elapsed(
            #[trigger] later.clock[i],
            start,
        ) < delay by {
            assert(later.clock[i] == feed.clock[i + 1]);
        }
        assert(state::elapsed(feed.clock[0], start) < delay);
        lemma_listen_completes(p, code, n, start, reads + 1, delay, later);
        assert(later.clock.skip(later.io.len() - 1) =~= feed.clock.skip(feed.io.len() - 1));
    }
}

/// A packet of any length that the bus allows is received by one call, in pieces of any
/// length, if no look at the clock finds the reply delay to be over before it is complete.
pub proof fn law_prompt_reply_is_heard(p: PacketView, code: ReplyCode, delay: u32, feed: Feed)
    requires
        codec::frame_well_formed(p),
        p.code == code.spec_byte(),
        codec::frame_bytes(p).len() <= MAX_BUS_PACKET,
        feed::delivers(feed.io, codec::frame_bytes(p)),
        every_read_brings(feed.io),
        feed.io.len() <= feed.clock.len(),
        forall|i: int|
            0 < i < feed.io.len() ==> state::elapsed(#[trigger] feed.clock[i], feed.clock[0])
                < delay,
    ensures
        model::hear(Seq::empty(), delay, feed) == Some(
            Heard {
                outcome: Ok(
                    ReplyFrame {
                        code,
                        sqn: p.ctrl.sqn,
                        scb: p.scb,
                        data: p.data,
                        raw: codec::frame_bytes(p),
                    },
                ),
                rx: Seq::empty(),
                rest: Feed { io: Seq::empty(), clock: feed.clock.skip(feed.io.len() as int) },
            },
        ),
{
    let f = codec::frame_bytes(p);
    let none = Seq::<u8>::empty();
    let rest = feed.after_clock();
    assert(f.len() > 0);
    assert(f.take(0) =~= none && f.skip(0) =~= f);
    assert(model::scan_reply(none) == (Ok::<Option<ReplyFrame>, Error>(None), none));
    assert forall|i: int| 0 <= i < rest.io.len() - 1 implies state::elapsed(
        #[trigger] rest.clock[i],
        feed.clock[0],
    ) < delay by {
        assert(rest.clock[i] == feed.clock[i + 1]);
    }
    assert(feed.io.len() > 0);
    lemma_listen_completes(p, code, 0, feed.clock[0], 0, delay, rest);
    assert(rest.clock.skip(rest.io.len() - 1) =~= feed.clock.skip(feed.io.len() as int));
}

} // verus!
