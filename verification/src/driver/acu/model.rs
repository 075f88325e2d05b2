//! What the ACU driver does, as a function of what its surroundings answer.
//!
//! A run takes the events of a [`Feed`] from the front. It is `None` where the feed holds
//! something that the driver would not have done, or ends too early.

use vstd::prelude::*;

use crate::bytes;
use crate::command::CommandView;
use crate::driver::acu::state::{self, AcuSecureKeyMaterial, AcuSecureView, PdStateView};
use crate::driver::acu::steps::{self, ReplyFrame};
use crate::driver::feed::Feed;
use crate::error::{Error, SecureSessionError};
use crate::packet::codec;
use crate::packet::control::Sqn;
use crate::packet::scb::ScsType;
use crate::reply::{self, ReplyCode, ReplyView};
use crate::secure::session;
use crate::secure::session::ChallengedView;
use crate::transport::IoEvent;
use crate::{MAX_BUS_PACKET, SOM};

verus! {

/// Number of consecutive reads without data that are tolerated within one attempt. It
/// keeps the driver from spinning on a transport that has nothing to deliver.
pub const MAX_EMPTY_READS: u8 = 4;

/// Number of reads within one attempt. The longest packet on the bus gets through even
/// byte by byte, and a line that never falls silent does not hold the driver up.
pub const MAX_READS: usize = MAX_BUS_PACKET;

/// How a run ends: its outcome, the bookkeeping, the bytes not yet consumed and the
/// events not yet used.
#[verifier::ext_equal]
pub struct Ran<A> {
    /// What is returned.
    pub outcome: Result<A, Error>,
    /// Bookkeeping about the PD.
    pub pd: PdStateView,
    /// Bytes received and not consumed.
    pub rx: Seq<u8>,
    /// Events that are left.
    pub rest: Feed,
}

/// How listening for a frame ends.
#[verifier::ext_equal]
pub struct Heard {
    /// The frame.
    pub outcome: Result<ReplyFrame, Error>,
    /// Bytes received and not consumed.
    pub rx: Seq<u8>,
    /// Events that are left.
    pub rest: Feed,
}

/// What an exchange comes to.
#[verifier::ext_equal]
pub enum ExchangeView {
    /// The PD answered.
    Reply(ReplyView),
    /// The PD is busy.
    Busy,
    /// No reply after all attempts.
    Timeout,
    /// The PD has been silent for too long.
    Offline,
}

/// Limits that an exchange runs under.
pub struct Limits {
    /// Reply-delay budget per attempt.
    pub reply_delay_ms: u32,
    /// Attempts after the first.
    pub max_retries: u8,
    /// Cap on the whole exchange, `0` for none.
    pub overall_budget_ms: u32,
}

/// The first reply in `rx`, with what is left of `rx`. Bytes before a start byte are
/// noise. A frame whose trailer is wrong is no frame: the search goes on behind its start
/// byte.
pub open spec fn scan_reply(rx: Seq<u8>) -> (Result<Option<ReplyFrame>, Error>, Seq<u8>)
    decreases rx.len(),
    via scan_reply_decreases
{
    let at = bytes::first_index(rx, SOM) as int;
    let buf = rx.skip(at);
    if at >= rx.len() {
        (Ok(None), rx)
    } else {
        match codec::parse_frame(buf) {
            Ok((p, used)) => match ReplyCode::spec_from_byte(p.code) {
                Err(e) => (Err(e), buf),
                Ok(code) => (
                    Ok(
                        Some(
                            ReplyFrame {
                                code,
                                sqn: p.ctrl.sqn,
                                scb: p.scb,
                                data: p.data,
                                raw: buf.take(used),
                            },
                        ),
                    ),
                    buf.skip(used),
                ),
            },
            Err(Error::Truncated { .. }) => (Ok(None), buf),
            Err(Error::BadSom(_)) => scan_reply(buf.skip(1)),
            Err(Error::BadCrc { .. }) => scan_reply(buf.skip(1)),
            Err(Error::BadChecksum { .. }) => scan_reply(buf.skip(1)),
            Err(e) => (Err(e), buf),
        }
    }
}

#[via_fn]
proof fn scan_reply_decreases(rx: Seq<u8>) {
    bytes::lemma_first_index(rx, SOM);
}

/// Number of reads in a row that have brought nothing, after one that brought `more`.
pub open spec fn empty_reads(empty: nat, more: Seq<u8>) -> nat {
    if more.len() == 0 {
        empty + 1
    } else {
        0
    }
}

/// The time for an attempt is up: the reply delay is over, or there was one read too many.
pub open spec fn time_is_up(now: u64, start: u64, delay: u32, empty: nat, reads: nat) -> bool {
    ||| state::elapsed(now, start) >= delay
    ||| empty >= MAX_EMPTY_READS
    ||| reads >= MAX_READS
}

/// Go on listening for one frame, with nothing complete in `rx`, after `reads` reads, of
/// which the last `empty` have brought nothing. A read that leaves nothing complete either
/// is followed by a look at the clock.
pub open spec fn listen(
    rx: Seq<u8>,
    start: u64,
    empty: nat,
    reads: nat,
    delay: u32,
    feed: Feed,
) -> Option<Heard>
    decreases feed.io.len(),
{
    if feed.io.len() == 0 {
        None
    } else {
        let rest = feed.after_io();
        match feed.io[0] {
            IoEvent::Write(_, _) => None,
            IoEvent::Read(Err(e)) => Some(Heard { outcome: Err(e), rx, rest }),
            IoEvent::Read(Ok(more)) => {
                let (found, rx) = scan_reply(rx + more);
                match found {
                    Err(e) => Some(Heard { outcome: Err(e), rx, rest }),
                    Ok(Some(f)) => Some(Heard { outcome: Ok(f), rx, rest }),
                    Ok(None) => if rest.clock.len() == 0 {
                        None
                    } else {
                        let empty = empty_reads(empty, more);
                        let later = rest.after_clock();
                        if time_is_up(rest.clock[0], start, delay, empty, reads + 1) {
                            Some(Heard { outcome: Err(Error::Timeout), rx, rest: later })
                        } else {
                            listen(rx, start, empty, reads + 1, delay, later)
                        }
                    },
                }
            },
        }
    }
}

/// Listen for one frame, with the reply delay starting now: take it from what has been
/// received, else read on.
pub open spec fn hear(rx: Seq<u8>, delay: u32, feed: Feed) -> Option<Heard> {
    if feed.clock.len() == 0 {
        None
    } else {
        let rest = feed.after_clock();
        let (found, rx) = scan_reply(rx);
        match found {
            Err(e) => Some(Heard { outcome: Err(e), rx, rest }),
            Ok(Some(f)) => Some(Heard { outcome: Ok(f), rx, rest }),
            Ok(None) => listen(rx, feed.clock[0], 0, 0, delay, rest),
        }
    }
}

/// Write `bytes`: the outcome, and the events that are left.
pub open spec fn write(bytes: Seq<u8>, feed: Feed) -> Option<(Result<(), Error>, Feed)> {
    if feed.io.len() == 0 {
        None
    } else {
        match feed.io[0] {
            IoEvent::Write(b, r) => if b == bytes {
                Some((r, feed.after_io()))
            } else {
                None
            },
            IoEvent::Read(_) => None,
        }
    }
}

/// Send a frame, if there is one, and return its bytes.
pub open spec fn send(
    frame: Result<Seq<u8>, Error>,
    pd: PdStateView,
    rx: Seq<u8>,
    feed: Feed,
) -> Option<Ran<Seq<u8>>> {
    match frame {
        Err(e) => Some(Ran { outcome: Err(e), pd, rx, rest: feed }),
        Ok(bytes) => match write(bytes, feed) {
            None => None,
            Some((Err(e), rest)) => Some(Ran { outcome: Err(e), pd, rx, rest }),
            Some((Ok(_), rest)) => Some(Ran { outcome: Ok(bytes), pd, rx, rest }),
        },
    }
}

/// Send a command once.
pub open spec fn send_command(
    addr: u8,
    pd: PdStateView,
    cmd: CommandView,
    rx: Seq<u8>,
    feed: Feed,
) -> Option<Ran<Seq<u8>>> {
    let (frame, pd1) = steps::request(addr, pd, pd.next_sqn, cmd);
    send(frame, pd1, rx, feed)
}

/// Open the handshake with the key material that was granted and the challenge that was
/// drawn. Only once SCS_11 is out is the challenge remembered.
pub open spec fn send_challenge(
    addr: u8,
    pd: PdStateView,
    material: AcuSecureKeyMaterial,
    draw: Result<Seq<u8>, Error>,
    rx: Seq<u8>,
    feed: Feed,
) -> Option<Ran<Seq<u8>>> {
    match draw {
        Err(e) => Some(Ran { outcome: Err(e), pd, rx, rest: feed }),
        Ok(rnd_a) => match send(
            steps::handshake_request(
                addr,
                pd.use_crc,
                pd.next_sqn,
                ScsType::Scs11,
                material.selection,
                CommandView::Chlng { rnd_a },
            ),
            pd,
            rx,
            feed,
        ) {
            None => None,
            Some(ran) => Some(
                Ran {
                    pd: if ran.outcome is Ok {
                        pd.with_secure(
                            Some(
                                AcuSecureView::Challenged {
                                    session: ChallengedView { scbk: material.scbk@, rnd_a },
                                    key: material.selection,
                                },
                            ),
                        )
                    } else {
                        pd
                    },
                    ..ran
                },
            ),
        },
    }
}

/// Open the handshake, if the application grants a key. If it does not, nothing happens.
pub open spec fn request_challenge(
    addr: u8,
    pd: PdStateView,
    granted: Option<AcuSecureKeyMaterial>,
    draw: Result<Seq<u8>, Error>,
    rx: Seq<u8>,
    feed: Feed,
) -> Option<Ran<Seq<u8>>> {
    match granted {
        None => Some(
            Ran {
                outcome: Err(Error::SecureSession(SecureSessionError::KeyUnavailable)),
                pd,
                rx,
                rest: feed,
            },
        ),
        Some(material) => send_challenge(addr, pd, material, draw, rx, feed),
    }
}

/// The reply was taken in: it counts as a sign of life, and the next command gets the next
/// number. A reply that was not changes nothing more.
pub open spec fn settle(
    judged: (Result<(), Error>, PdStateView),
    rx: Seq<u8>,
    feed: Feed,
) -> Option<Ran<()>> {
    match judged.0 {
        Err(e) => Some(Ran { outcome: Err(e), pd: judged.1, rx, rest: feed }),
        Ok(_) => if feed.clock.len() == 0 {
            None
        } else {
            Some(
                Ran {
                    outcome: Ok(()),
                    pd: judged.1.seen_at(feed.clock[0]).bumped(),
                    rx,
                    rest: feed.after_clock(),
                },
            )
        },
    }
}

/// Receive the reply to SCS_11.
pub open spec fn receive_ccrypt(pd: PdStateView, rx: Seq<u8>, delay: u32, feed: Feed) -> Option<
    Ran<()>,
> {
    match hear(rx, delay, feed) {
        None => None,
        Some(h) => match h.outcome {
            Err(e) => Some(Ran { outcome: Err(e), pd, rx: h.rx, rest: h.rest }),
            Ok(f) => settle(steps::judge_ccrypt(pd, f), h.rx, h.rest),
        },
    }
}

/// Send SCS_13.
pub open spec fn send_scrypt(addr: u8, pd: PdStateView, rx: Seq<u8>, feed: Feed) -> Option<
    Ran<Seq<u8>>,
> {
    match pd.secure {
        Some(AcuSecureView::Cryptogrammed { session, key }) => send(
            steps::handshake_request(
                addr,
                pd.use_crc,
                pd.next_sqn,
                ScsType::Scs13,
                key,
                CommandView::SCrypt {
                    server_cryptogram: session::server_cryptogram(
                        session::derive_keys(session.scbk, session.rnd_a),
                        session.rnd_a,
                        session.rnd_b,
                    ),
                },
            ),
            pd,
            rx,
            feed,
        ),
        _ => Some(
            Ran {
                outcome: Err(Error::SecureSession(SecureSessionError::BadTransition)),
                pd,
                rx,
                rest: feed,
            },
        ),
    }
}

/// Receive the reply to SCS_13.
pub open spec fn receive_rmac_i(pd: PdStateView, rx: Seq<u8>, delay: u32, feed: Feed) -> Option<
    Ran<()>,
> {
    match hear(rx, delay, feed) {
        None => None,
        Some(h) => match h.outcome {
            Err(e) => Some(Ran { outcome: Err(e), pd, rx: h.rx, rest: h.rest }),
            Ok(f) => settle(steps::judge_rmac_i(pd, f), h.rx, h.rest),
        },
    }
}

/// The second half of the handshake: SCS_13 and its reply.
pub open spec fn finish_handshake(
    addr: u8,
    pd: PdStateView,
    rx: Seq<u8>,
    delay: u32,
    feed: Feed,
) -> Option<Ran<()>> {
    match send_scrypt(addr, pd, rx, feed) {
        None => None,
        Some(sent) => match sent.outcome {
            Err(e) => Some(Ran { outcome: Err(e), pd: sent.pd, rx: sent.rx, rest: sent.rest }),
            Ok(_) => receive_rmac_i(sent.pd, sent.rx, delay, sent.rest),
        },
    }
}

/// The whole handshake: SCS_11, its reply, SCS_13, its reply. The first failure ends it.
pub open spec fn establish(
    addr: u8,
    pd: PdStateView,
    granted: Option<AcuSecureKeyMaterial>,
    draw: Result<Seq<u8>, Error>,
    rx: Seq<u8>,
    delay: u32,
    feed: Feed,
) -> Option<Ran<()>> {
    match request_challenge(addr, pd, granted, draw, rx, feed) {
        None => None,
        Some(sent) => match sent.outcome {
            Err(e) => Some(Ran { outcome: Err(e), pd: sent.pd, rx: sent.rx, rest: sent.rest }),
            Ok(_) => match receive_ccrypt(sent.pd, sent.rx, delay, sent.rest) {
                None => None,
                Some(got) => match got.outcome {
                    Err(_) => Some(got),
                    Ok(_) => finish_handshake(addr, got.pd, got.rx, delay, got.rest),
                },
            },
        },
    }
}

/// Receive one reply, whatever its sequence number, and count it as a sign of life.
pub open spec fn receive(pd: PdStateView, rx: Seq<u8>, delay: u32, feed: Feed) -> Option<
    Ran<ReplyView>,
> {
    match hear(rx, delay, feed) {
        None => None,
        Some(h) => match h.outcome {
            Err(e) => Some(Ran { outcome: Err(e), pd, rx: h.rx, rest: h.rest }),
            Ok(f) => {
                let (data, pd1) = steps::open_reply(pd, f);
                match data {
                    Err(e) => Some(Ran { outcome: Err(e), pd: pd1, rx: h.rx, rest: h.rest }),
                    Ok(d) => if h.rest.clock.len() == 0 {
                        None
                    } else {
                        Some(
                            Ran {
                                outcome: reply::reply_decode(f.code, d),
                                pd: pd1.seen_at(h.rest.clock[0]).bumped(),
                                rx: h.rx,
                                rest: h.rest.after_clock(),
                            },
                        )
                    },
                }
            },
        },
    }
}

/// Receive the reply to the command with number `sqn`.
pub open spec fn receive_one(
    pd: PdStateView,
    sqn: Sqn,
    rx: Seq<u8>,
    delay: u32,
    feed: Feed,
) -> Option<Ran<ReplyView>> {
    match hear(rx, delay, feed) {
        None => None,
        Some(h) => match h.outcome {
            Err(e) => Some(Ran { outcome: Err(e), pd, rx: h.rx, rest: h.rest }),
            Ok(f) => match steps::check_sqn(sqn, f.code, f.sqn) {
                Err(e) => Some(Ran { outcome: Err(e), pd, rx: h.rx, rest: h.rest }),
                Ok(_) => {
                    let (data, pd1) = steps::open_reply(pd, f);
                    Some(
                        Ran {
                            outcome: match data {
                                Err(e) => Err(e),
                                Ok(d) => reply::reply_decode(f.code, d),
                            },
                            pd: pd1,
                            rx: h.rx,
                            rest: h.rest,
                        },
                    )
                },
            },
        },
    }
}

/// The bookkeeping after an exchange was given up: a secured command that went unanswered
/// has put the two sessions out of step, so the session is dropped.
pub open spec fn give_up(pd: PdStateView, secured: bool) -> PdStateView {
    if secured {
        pd.with_secure(None)
    } else {
        pd
    }
}

/// What an attempt that ended at `now` with this answer, or without one, comes to. `None`
/// asks for another attempt.
pub open spec fn verdict(
    answer: Option<ReplyView>,
    pd: PdStateView,
    secured: bool,
    failed: nat,
    started: u64,
    limits: Limits,
    now: u64,
) -> Option<(ExchangeView, PdStateView)> {
    match answer {
        Some(ReplyView::Busy) => Some((ExchangeView::Busy, pd.seen_at(now))),
        Some(reply) => Some((ExchangeView::Reply(reply), pd.seen_at(now).bumped())),
        None => if pd.is_offline(now) {
            Some((ExchangeView::Offline, give_up(pd, secured)))
        } else if failed >= limits.max_retries || (limits.overall_budget_ms != 0 && state::elapsed(
            now,
            started,
        ) >= limits.overall_budget_ms) {
            Some((ExchangeView::Timeout, give_up(pd, secured)))
        } else {
            None
        },
    }
}

/// The answer to an attempt: none on a timeout. Other errors end the exchange.
pub open spec fn answer_of(outcome: Result<ReplyView, Error>) -> Result<Option<ReplyView>, Error> {
    match outcome {
        Ok(reply) => Ok(Some(reply)),
        Err(Error::Timeout) => Ok(None),
        Err(e) => Err(e),
    }
}

/// One attempt: send the frame, and receive the answer to it.
#[verifier::opaque]
pub open spec fn try_once(
    frame: Seq<u8>,
    sqn: Sqn,
    pd: PdStateView,
    rx: Seq<u8>,
    delay: u32,
    feed: Feed,
) -> Option<Ran<Option<ReplyView>>> {
    match write(frame, feed) {
        None => None,
        Some((Err(e), rest)) => Some(Ran { outcome: Err(e), pd, rx, rest }),
        Some((Ok(_), rest)) => match receive_one(pd, sqn, rx, delay, rest) {
            None => None,
            Some(got) => Some(
                Ran { outcome: answer_of(got.outcome), pd: got.pd, rx: got.rx, rest: got.rest },
            ),
        },
    }
}

/// Make attempts until there is an answer or the limits are reached. Every attempt sends
/// the same frame. `failed` attempts have gone unanswered so far.
pub open spec fn attempt(
    frame: Seq<u8>,
    secured: bool,
    sqn: Sqn,
    started: u64,
    failed: nat,
    pd: PdStateView,
    rx: Seq<u8>,
    limits: Limits,
    feed: Feed,
) -> Option<Ran<ExchangeView>>
    decreases limits.max_retries - failed,
{
    match try_once(frame, sqn, pd, rx, limits.reply_delay_ms, feed) {
        None => None,
        Some(got) => match got.outcome {
            Err(e) => Some(Ran { outcome: Err(e), pd: got.pd, rx: got.rx, rest: got.rest }),
            Ok(answer) => if got.rest.clock.len() == 0 {
                None
            } else {
                let now = got.rest.clock[0];
                let rest = got.rest.after_clock();
                match verdict(answer, got.pd, secured, failed, started, limits, now) {
                    Some((outcome, pd)) => Some(Ran { outcome: Ok(outcome), pd, rx: got.rx, rest }),
                    None => attempt(
                        frame,
                        secured,
                        sqn,
                        started,
                        failed + 1,
                        got.pd,
                        got.rx,
                        limits,
                        rest,
                    ),
                }
            },
        },
    }
}

/// Run a command and its reply. A PD that has been silent for too long is not asked.
pub open spec fn exchange(
    addr: u8,
    pd: PdStateView,
    cmd: CommandView,
    rx: Seq<u8>,
    limits: Limits,
    feed: Feed,
) -> Option<Ran<ExchangeView>> {
    if feed.clock.len() == 0 {
        None
    } else {
        let now = feed.clock[0];
        let rest = feed.after_clock();
        if pd.is_offline(now) {
            Some(Ran { outcome: Ok(ExchangeView::Offline), pd, rx, rest })
        } else {
            let (frame, pd1) = steps::request(addr, pd, pd.next_sqn, cmd);
            match frame {
                Err(e) => Some(Ran { outcome: Err(e), pd: pd1, rx, rest }),
                Ok(bytes) => attempt(
                    bytes,
                    pd.is_secure(),
                    pd.next_sqn,
                    now,
                    0,
                    pd1,
                    rx,
                    limits,
                    rest,
                ),
            }
        }
    }
}

} // verus!
