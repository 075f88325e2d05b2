//! ACU (Access Control Unit) driver: issues commands to PDs and consumes their replies.
//! Manages sequence numbers, the reply delay, retries, `osdp_BUSY` and off-line
//! detection.

pub mod laws;
pub mod listening;
pub mod model;
pub mod outcomes;
pub(crate) mod progress;
pub mod sending;
pub mod state;
pub mod steps;

use vstd::prelude::*;

use crate::bytes;
use crate::bytes::{append, drop_front, position, range};
use crate::clock::Clock;
use crate::command::{Chlng, Command, SCrypt};
use crate::driver::acu::model::{
    ExchangeView, Heard, Limits, Ran, MAX_EMPTY_READS, MAX_READS,
};
use crate::driver::acu::state::PdStateView;
use crate::driver::acu::steps::{
    handshake_request_frame, plain_request_frame, require_sqn, secure_request_frame, take_ccrypt,
    take_rmac_i, unseal_secure_reply_if_established, ParsedReply, ReplyFrame,
};
use crate::driver::feed;
use crate::driver::feed::Feed;
use crate::error::{Error, SecureSessionError};
use crate::packet::codec;
use crate::packet::codec::ParsedPacket;
use crate::packet::control::Sqn;
use crate::packet::scb::ScsType;
use crate::reply;
use crate::reply::{Reply, ReplyCode, ReplyView};
use crate::secure::frame;
use crate::secure::session::{Disconnected, SecureRandom, Session};
use crate::transport::{read_chunk, IoEvent, Transport};
use crate::{MAX_BUS_PACKET, REPLY_DELAY_MS, SOM};

pub use crate::driver::acu::state::{
    AcuSecureKey, AcuSecureKeyMaterial, AcuSecureKeyProvider, AcuSecureState, PdState,
};

verus! {

/// Outcome of a single command/reply exchange.
#[derive(Debug, Clone, PartialEq, Eq)]
#[non_exhaustive]
pub enum ExchangeOutcome {
    /// PD answered with a typed reply.
    Reply(Reply),
    /// PD answered with `osdp_BUSY`. Caller may try again later.
    Busy,
    /// No reply within the configured budget after exhausting retries.
    Timeout,
    /// PD has been silent for [`crate::OFFLINE_THRESHOLD_MS`] or more.
    Offline,
}

impl View for ExchangeOutcome {
    type V = ExchangeView;

    open spec fn view(&self) -> ExchangeView {
        match *self {
            ExchangeOutcome::Reply(reply) => ExchangeView::Reply(reply@),
            ExchangeOutcome::Busy => ExchangeView::Busy,
            ExchangeOutcome::Timeout => ExchangeView::Timeout,
            ExchangeOutcome::Offline => ExchangeView::Offline,
        }
    }
}

/// Outcome of [`Acu::exchange`] in terms of contents.
pub open spec fn exchange_result(r: Result<ExchangeOutcome, Error>) -> Result<
    ExchangeView,
    Error,
> {
    match r {
        Ok(outcome) => Ok(outcome@),
        Err(e) => Err(e),
    }
}

/// Outcome of listening in terms of contents.
pub open spec fn frame_result(r: Result<ParsedReply, Error>) -> Result<ReplyFrame, Error> {
    match r {
        Ok(reply) => Ok(reply@),
        Err(e) => Err(e),
    }
}

/// Outcome of scanning in terms of contents.
pub open spec fn scan_result(r: Result<Option<ParsedReply>, Error>) -> Result<
    Option<ReplyFrame>,
    Error,
> {
    match r {
        Ok(Some(reply)) => Ok(Some(reply@)),
        Ok(None) => Ok(None),
        Err(e) => Err(e),
    }
}

/// Configuration for retry policy.
#[derive(Debug, Clone, Copy)]
pub struct RetryConfig {
    /// Number of *additional* attempts after the first (so `0` = no retry).
    pub max_retries: u8,
    /// Optional cap on how long to spend retrying a single command (ms). `0` disables the
    /// cap; the reply-delay budget per attempt still applies.
    pub overall_budget_ms: u32,
}

impl Default for RetryConfig {
    fn default() -> (c: Self)
        ensures
            c.max_retries == 2,
            c.overall_budget_ms == 0,
    {
        RetryConfig { max_retries: 2, overall_budget_ms: 0 }
    }
}

impl RetryConfig {
    /// The limits of an exchange under this policy.
    pub open spec fn limits(self, reply_delay_ms: u32) -> Limits {
        Limits {
            reply_delay_ms,
            max_retries: self.max_retries,
            overall_budget_ms: self.overall_budget_ms,
        }
    }
}

/// Contents of an optional reply.
pub open spec fn reply_view(reply: Option<Reply>) -> Option<ReplyView> {
    match reply {
        Some(r) => Some(r@),
        None => None,
    }
}

/// Outcome of an attempt in terms of contents.
pub open spec fn answer_result(r: Result<Option<Reply>, Error>) -> Result<
    Option<ReplyView>,
    Error,
> {
    match r {
        Ok(answer) => Ok(reply_view(answer)),
        Err(e) => Err(e),
    }
}

/// Drop the secure state after an exchange was given up. The two sessions are out of step;
/// a new handshake has to be run.
fn reset_secure_after_exhausted_timeout(pd: &mut PdState)
    ensures
        final(pd)@ == old(pd)@.with_secure(None),
{
    pd.secure_state = None;
}

/// Decide what an attempt that ended at `now_ms` with this answer, or without one, comes
/// to. `None` asks for another attempt with the same frame.
pub fn judge_attempt(
    pd: &mut PdState,
    answer: Option<Reply>,
    secured: bool,
    failed: u16,
    started_ms: u64,
    retry: RetryConfig,
    now_ms: u64,
) -> (r: Option<ExchangeOutcome>)
    ensures
        forall|reply_delay_ms: u32|
            ({
                let limits = #[trigger] retry.limits(reply_delay_ms);
                match model::verdict(
                    reply_view(answer),
                    old(pd)@,
                    secured,
                    failed as nat,
                    started_ms,
                    limits,
                    now_ms,
                ) {
                    Some((outcome, after)) => r is Some && r->0@ == outcome && final(pd)@ == after,
                    None => r is None && final(pd)@ == old(pd)@,
                }
            }),
{
    if let Some(reply) = answer {
        pd.mark_seen(now_ms);
        if let Reply::Busy(_) = reply {
            return Some(ExchangeOutcome::Busy);
        }
        pd.bump_sqn();
        return Some(ExchangeOutcome::Reply(reply));
    }
    let outcome = if pd.is_offline(now_ms) {
        ExchangeOutcome::Offline
    } else if failed >= retry.max_retries as u16 || (retry.overall_budget_ms != 0
        && now_ms.saturating_sub(started_ms) >= retry.overall_budget_ms as u64) {
        ExchangeOutcome::Timeout
    } else {
        return None;
    };
    if secured {
        reset_secure_after_exhausted_timeout(pd);
    }
    Some(outcome)
}

/// ACU driver.
pub struct Acu<T: Transport, C: Clock> {
    /// The bus.
    pub transport: T,
    /// Time source.
    pub clock: C,
    /// Reply-delay budget per attempt, in milliseconds.
    pub reply_delay_ms: u32,
    /// Retry policy applied by [`Acu::exchange`].
    pub retry: RetryConfig,
    /// Bytes received and not consumed.
    pub rx_buf: Vec<u8>,
    /// Every clock reading so far, for specifications only.
    pub readings: Ghost<Seq<u64>>,
}

impl<T: Transport, C: Clock> Acu<T, C> {
    /// This driver is `before` after some events: the settings are the same, and the
    /// records of events have grown.
    pub open spec fn follows(self, before: Self) -> bool {
        &&& self.clock == before.clock
        &&& self.reply_delay_ms == before.reply_delay_ms
        &&& self.retry == before.retry
        &&& before.transport.log().is_prefix_of(self.transport.log())
        &&& before.readings@.is_prefix_of(self.readings@)
        &&& forall|i: int|
            before.readings@.len() <= i < self.readings@.len() ==> self.clock.shows(
                #[trigger] self.readings@[i],
            )
    }

    /// The events that lead from `before` to this driver.
    pub open spec fn events_since(self, before: Self) -> Feed {
        Feed {
            io: self.transport.log().skip(before.transport.log().len() as int),
            clock: self.readings@.skip(before.readings@.len() as int),
        }
    }

    /// The limits of an exchange.
    pub open spec fn limits(self) -> Limits {
        self.retry.limits(self.reply_delay_ms)
    }

    /// A run has ended here: it has returned `outcome`, and used up its events.
    pub open spec fn ended<A>(self, outcome: Result<A, Error>, pd: PdStateView) -> Option<Ran<A>> {
        Some(Ran { outcome, pd, rx: self.rx_buf@, rest: Feed::nothing() })
    }

    /// Events add up.
    proof fn lemma_events_add_up(a: Self, b: Self, c: Self)
        requires
            b.follows(a),
            c.follows(b),
        ensures
            c.follows(a),
            c.events_since(a) == b.events_since(a).followed_by(c.events_since(b)),
    {
        assert(c.events_since(a) =~= b.events_since(a).followed_by(c.events_since(b)));
        assert forall|i: int| a.readings@.len() <= i < c.readings@.len() implies c.clock.shows(
            #[trigger] c.readings@[i],
        ) by {
            if i < b.readings@.len() {
                assert(c.readings@[i] == b.readings@[i]);
            }
        }
    }

    /// Listening seen from its first clock reading on, with nothing complete received before.
    proof fn lemma_heard(before: Self, begun: Self, now: Self, start: u64, rx: Seq<u8>, delay: u32)
        requires
            begun.follows(before),
            begun.events_since(before) == feed::one_reading(start),
            now.follows(begun),
            model::scan_reply(before.rx_buf@) == (Ok::<Option<ReplyFrame>, Error>(None), rx),
        ensures
            now.follows(before),
            model::hear(before.rx_buf@, delay, now.events_since(before)) == model::listen(
                rx,
                start,
                0,
                0,
                delay,
                now.events_since(begun),
            ),
    {
        Self::lemma_events_add_up(before, begun, now);
        feed::lemma_first(IoEvent::Read(Err(Error::Io)), start, now.events_since(begun));
    }

    /// A clock reading after listening is what listening leaves.
    proof fn lemma_timed(before: Self, heard: Self, now: Self, t: u64)
        requires
            heard.follows(before),
            now.follows(heard),
            now.events_since(heard) == feed::one_reading(t),
            model::hear(
                before.rx_buf@,
                before.reply_delay_ms,
                heard.events_since(before),
            ) is Some,
            model::hear(
                before.rx_buf@,
                before.reply_delay_ms,
                heard.events_since(before),
            )->0.rest == Feed::nothing(),
        ensures
            now.follows(before),
            model::hear(before.rx_buf@, before.reply_delay_ms, now.events_since(before)) == Some(
                Heard {
                    rest: feed::one_reading(t),
                    ..model::hear(
                        before.rx_buf@,
                        before.reply_delay_ms,
                        heard.events_since(before),
                    )->0
                },
            ),
            feed::one_reading(t).after_clock() == Feed::nothing(),
    {
        let first = heard.events_since(before);
        let read = feed::one_reading(t);
        Self::lemma_events_add_up(before, heard, now);
        progress::lemma_hear_extends(before.rx_buf@, before.reply_delay_ms, first, read);
        feed::lemma_followed_by(read, read, read);
        assert(read.after_clock() =~= Feed::nothing());
    }

    /// New driver with default reply delay and retry policy.
    pub fn new(transport: T, clock: C) -> (acu: Self)
        ensures
            acu.transport == transport,
            acu.clock == clock,
            acu.reply_delay_ms == REPLY_DELAY_MS,
            acu.retry.max_retries == 2,
            acu.retry.overall_budget_ms == 0,
            acu.rx_buf@ == Seq::<u8>::empty(),
            acu.readings@ == Seq::<u64>::empty(),
    {
        Acu {
            transport,
            clock,
            reply_delay_ms: REPLY_DELAY_MS,
            retry: RetryConfig::default(),
            rx_buf: Vec::with_capacity(MAX_BUS_PACKET),
            readings: Ghost(Seq::empty()),
        }
    }

    /// Borrow the underlying transport.
    pub fn transport(&mut self) -> (t: &mut T)
        ensures
            *t == old(self).transport,
            *final(self) == (Acu { transport: *final(t), ..*old(self) }),
    {
        &mut self.transport
    }

    /// Borrow the clock.
    pub fn clock(&self) -> (c: &C)
        ensures
            *c == self.clock,
    {
        &self.clock
    }

    /// Read the clock.
    fn now(&mut self) -> (t: u64)
        ensures
            final(self).follows(*old(self)),
            final(self).events_since(*old(self)) == feed::one_reading(t),
            final(self).rx_buf == old(self).rx_buf,
            final(self).transport == old(self).transport,
    {
        let t: u64 = self.clock.now_ms();
        self.readings = Ghost(self.readings@.push(t));
        assert(self.events_since(*old(self)) =~= feed::one_reading(t));
        t
    }

    /// Write to the transport.
    fn put(&mut self, bytes: &[u8]) -> (r: Result<(), Error>)
        ensures
            final(self).follows(*old(self)),
            final(self).events_since(*old(self)) == feed::one_io(IoEvent::Write(bytes@, r)),
            final(self).rx_buf == old(self).rx_buf,
    {
        let r = self.transport.write_all(bytes);
        assert(self.events_since(*old(self)) =~= feed::one_io(IoEvent::Write(bytes@, r)));
        r
    }

    /// Look for a reply in what has been received.
    fn try_parse_packet_with_scb(&mut self) -> (r: Result<Option<ParsedReply>, Error>)
        ensures
            (scan_result(r), final(self).rx_buf@) == model::scan_reply(old(self).rx_buf@),
            *final(self) == (Acu { rx_buf: final(self).rx_buf, ..*old(self) }),
            r matches Ok(Some(reply)) ==> reply@.well_formed(),
    {
        loop
            invariant
                model::scan_reply(self.rx_buf@) == model::scan_reply(old(self).rx_buf@),
                *self == (Acu { rx_buf: self.rx_buf, ..*old(self) }),
            decreases self.rx_buf@.len(),
        {
            let som_pos: usize = match position(self.rx_buf.as_slice(), SOM) {
                Some(at) => at,
                None => {
                    return Ok(None);
                },
            };
            proof {
                progress::lemma_scanned_is_well_formed(self.rx_buf@);
            }
            drop_front(&mut self.rx_buf, som_pos);
            match ParsedPacket::parse(self.rx_buf.as_slice()) {
                Ok((parsed, used)) => {
                    proof {
                        codec::law_parse_is_local(self.rx_buf@);
                    }
                    let code = ReplyCode::from_byte(parsed.code)?;
                    let scb = match parsed.scb {
                        Some(scb) => Some(scb.to_owned()),
                        None => None,
                    };
                    let raw = vstd::slice::slice_to_vec(range(self.rx_buf.as_slice(), 0, used));
                    let reply = ParsedReply {
                        code,
                        sqn: parsed.ctrl.sqn,
                        scb,
                        data: vstd::slice::slice_to_vec(parsed.data),
                        raw,
                    };
                    assert(raw@ =~= self.rx_buf@.take(used as int));
                    drop_front(&mut self.rx_buf, used);
                    return Ok(Some(reply));
                },
                Err(Error::Truncated { .. }) => {
                    return Ok(None);
                },
                Err(Error::BadSom(_)) | Err(Error::BadCrc { .. }) | Err(
                    Error::BadChecksum { .. },
                ) => {
                    drop_front(&mut self.rx_buf, 1);
                },
                Err(other) => {
                    return Err(other);
                },
            }
        }
    }

    /// Read one chunk from the transport.
    fn pull(&mut self) -> (r: Result<Vec<u8>, Error>)
        ensures
            final(self).follows(*old(self)),
            final(self).rx_buf == old(self).rx_buf,
            final(self).events_since(*old(self)) == feed::one_io(
                IoEvent::Read(bytes::vec_result(r)),
            ),
    {
        let r = read_chunk(&mut self.transport);
        assert(self.events_since(*old(self)) =~= feed::one_io(
            IoEvent::Read(bytes::vec_result(r)),
        ));
        r
    }

    /// Inner read/parse loop shared by the reply receive paths. Drains the transport into
    /// the receive buffer until a complete packet can be parsed, the per-attempt
    /// reply-delay budget is exhausted, the transport has signalled "no data" too many
    /// times, or it has been read often enough for the longest packet. Sequence number and secure-channel policy are left to the caller.
    fn recv_loop_with_scb(&mut self) -> (r: Result<ParsedReply, Error>)
        ensures
            final(self).follows(*old(self)),
            model::hear(
                old(self).rx_buf@,
                old(self).reply_delay_ms,
                final(self).events_since(*old(self)),
            ) == Some(
                Heard {
                    outcome: frame_result(r),
                    rx: final(self).rx_buf@,
                    rest: Feed::nothing(),
                },
            ),
            r matches Ok(reply) ==> reply@.well_formed(),
    {
        let start: u64 = self.now();
        let found = self.try_parse_packet_with_scb();
        let ghost begun = *self;
        let ghost rx = self.rx_buf@;
        let ghost delay = self.reply_delay_ms;
        proof {
            assert(begun.events_since(*old(self)) == feed::one_reading(start));
            assert(feed::one_reading(start).after_clock() =~= Feed::nothing());
            assert(self.events_since(begun) =~= Feed::nothing());
            progress::lemma_listening_begins(rx, start, delay);
        }
        match found {
            Err(e) => {
                return Err(e);
            },
            Ok(Some(reply)) => {
                return Ok(reply);
            },
            Ok(None) => {},
        }
        let mut empty_reads: u8 = 0;
        let mut reads: usize = 0;
        loop
            invariant
                empty_reads < MAX_EMPTY_READS,
                reads < MAX_READS,
                begun.follows(*old(self)),
                begun.events_since(*old(self)) == feed::one_reading(start),
                model::scan_reply(old(self).rx_buf@) == (
                    Ok::<Option<ReplyFrame>, Error>(None),
                    rx,
                ),
                delay == old(self).reply_delay_ms,
                self.follows(begun),
                progress::listening(
                    rx,
                    start,
                    delay,
                    self.events_since(begun),
                    self.rx_buf@,
                    empty_reads as nat,
                    reads as nat,
                ),
            decreases MAX_READS - reads,
        {
            let ghost before = *self;
            let ghost done = self.events_since(begun);
            let ghost cur = self.rx_buf@;
            let pulled = self.pull();
            proof {
                Self::lemma_events_add_up(begun, before, *self);
                progress::lemma_listening_ends(
                    rx,
                    start,
                    delay,
                    done,
                    cur,
                    empty_reads as nat,
                    reads as nat,
                    bytes::vec_result(pulled),
                );
                Self::lemma_heard(*old(self), begun, *self, start, rx, delay);
            }
            let more = pulled?;
            append(&mut self.rx_buf, more.as_slice());
            let found = self.try_parse_packet_with_scb();
            let ghost read = *self;
            proof {
                assert(self.events_since(begun) == done.followed_by(
                    feed::one_io(IoEvent::Read(Ok(more@))),
                ));
                Self::lemma_heard(*old(self), begun, *self, start, rx, delay);
            }
            match found {
                Err(e) => {
                    return Err(e);
                },
                Ok(Some(reply)) => {
                    return Ok(reply);
                },
                Ok(None) => {},
            }
            let now: u64 = self.now();
            proof {
                Self::lemma_events_add_up(begun, read, *self);
                feed::lemma_followed_by(
                    done,
                    feed::one_io(IoEvent::Read(Ok(more@))),
                    feed::one_reading(now),
                );
                progress::lemma_listening_goes_on(
                    rx,
                    start,
                    delay,
                    done,
                    cur,
                    empty_reads as nat,
                    reads as nat,
                    more@,
                    now,
                );
                Self::lemma_heard(*old(self), begun, *self, start, rx, delay);
            }
            empty_reads = if more.len() == 0 {
                empty_reads + 1
            } else {
                0
            };
            reads = reads + 1;
            if now.saturating_sub(start) >= self.reply_delay_ms as u64 || empty_reads
                >= MAX_EMPTY_READS || reads >= MAX_READS {
                return Err(Error::Timeout);
            }
        }
    }

    /// Send a frame and hand its bytes back.
    fn transmit(&mut self, frame: Vec<u8>) -> (r: Result<Vec<u8>, Error>)
        ensures
            final(self).follows(*old(self)),
            forall|pd: PdStateView| #[trigger]
                model::send(
                    Ok(frame@),
                    pd,
                    old(self).rx_buf@,
                    final(self).events_since(*old(self)),
                ) == final(self).ended(bytes::vec_result(r), pd),
    {
        match self.put(frame.as_slice()) {
            Ok(()) => {
                proof {
                    feed::lemma_first(IoEvent::Write(frame@, Ok(())), 0, Feed::nothing());
                    feed::lemma_followed_by(
                        self.events_since(*old(self)),
                        Feed::nothing(),
                        Feed::nothing(),
                    );
                }
                Ok(frame)
            },
            Err(e) => {
                proof {
                    feed::lemma_first(IoEvent::Write(frame@, Err(e)), 0, Feed::nothing());
                    feed::lemma_followed_by(
                        self.events_since(*old(self)),
                        Feed::nothing(),
                        Feed::nothing(),
                    );
                }
                Err(e)
            },
        }
    }

    /// Encode and send `command` to `pd_addr` once. Returns the bytes written. In a secure
    /// session, a PD in step with the session opens them to the command's DATA, and is
    /// then in step with the session again.
    pub fn send_to(&mut self, pd_addr: u8, pd: &mut PdState, command: &Command) -> (r: Result<
        Vec<u8>,
        Error,
    >)
        ensures
            final(self).follows(*old(self)),
            model::send_command(
                pd_addr,
                old(pd)@,
                command@,
                old(self).rx_buf@,
                final(self).events_since(*old(self)),
            ) == final(self).ended(bytes::vec_result(r), final(pd)@),
            r is Ok && old(pd)@.is_secure() ==> frame::opens_to(
                old(pd)@.session()->0,
                r->Ok_0@,
                final(pd)@.session()->0,
                command@.data()->Ok_0,
            ),
    {
        let sqn = pd.next_sqn;
        if pd.is_secure() {
            return self.send_secure_with_sqn(pd_addr, pd, sqn, command);
        }
        let use_crc = pd.use_crc;
        self.send_with_sqn(pd_addr, use_crc, sqn, command)
    }

    /// Send a command outside a secure session.
    fn send_with_sqn(&mut self, pd_addr: u8, use_crc: bool, sqn: Sqn, command: &Command) -> (r:
        Result<Vec<u8>, Error>)
        ensures
            final(self).follows(*old(self)),
            forall|pd: PdStateView| #[trigger]
                model::send(
                    steps::plain_request(pd_addr, use_crc, sqn, command@),
                    pd,
                    old(self).rx_buf@,
                    final(self).events_since(*old(self)),
                ) == final(self).ended(bytes::vec_result(r), pd),
    {
        match plain_request_frame(pd_addr, use_crc, sqn, command) {
            Ok(frame) => self.transmit(frame),
            Err(e) => {
                assert(self.events_since(*old(self)) =~= Feed::nothing());
                Err(e)
            },
        }
    }

    /// Send a command inside the secure session.
    fn send_secure_with_sqn(
        &mut self,
        pd_addr: u8,
        pd: &mut PdState,
        sqn: Sqn,
        command: &Command,
    ) -> (r: Result<Vec<u8>, Error>)
        ensures
            final(self).follows(*old(self)),
            ({
                let (frame, pd1) = steps::secure_request(pd_addr, old(pd)@, sqn, command@);
                &&& model::send(
                    frame,
                    pd1,
                    old(self).rx_buf@,
                    final(self).events_since(*old(self)),
                ) == final(self).ended(bytes::vec_result(r), final(pd)@)
                &&& final(pd)@ == pd1
            }),
            r is Ok ==> frame::opens_to(
                old(pd)@.session()->0,
                r->Ok_0@,
                final(pd)@.session()->0,
                command@.data()->Ok_0,
            ),
    {
        match secure_request_frame(pd_addr, pd, sqn, command) {
            Ok(frame) => self.transmit(frame),
            Err(e) => {
                assert(self.events_since(*old(self)) =~= Feed::nothing());
                Err(e)
            },
        }
    }

    /// Send a handshake command.
    fn send_secure_handshake_with_sqn(
        &mut self,
        pd_addr: u8,
        use_crc: bool,
        sqn: Sqn,
        scs: ScsType,
        key: AcuSecureKey,
        command: &Command,
    ) -> (r: Result<Vec<u8>, Error>)
        ensures
            final(self).follows(*old(self)),
            forall|pd: PdStateView| #[trigger]
                model::send(
                    steps::handshake_request(pd_addr, use_crc, sqn, scs, key, command@),
                    pd,
                    old(self).rx_buf@,
                    final(self).events_since(*old(self)),
                ) == final(self).ended(bytes::vec_result(r), pd),
    {
        match handshake_request_frame(pd_addr, use_crc, sqn, scs, key, command) {
            Ok(frame) => self.transmit(frame),
            Err(e) => {
                assert(self.events_since(*old(self)) =~= Feed::nothing());
                Err(e)
            },
        }
    }

    /// Send SCS_11 / `osdp_CHLNG` and remember the challenged ACU state.
    ///
    /// `SEC_BLK_DATA[0]` selects the SCBK (`1`) or SCBK-D (`0`) for this secure-channel
    /// connection sequence.
    pub fn send_secure_challenge<K: AcuSecureKeyProvider + ?Sized, R: SecureRandom>(
        &mut self,
        pd_addr: u8,
        pd: &mut PdState,
        keys: &mut K,
        rng: &mut R,
    ) -> (r: Result<Vec<u8>, Error>)
        ensures
            final(self).follows(*old(self)),
            ({
                let granted = final(keys).answers().last().1;
                let draw = final(rng).draws().last();
                &&& final(keys).answers() == old(keys).answers().push((pd_addr, granted))
                &&& final(rng).draws() == if granted is Some {
                    old(rng).draws().push(draw)
                } else {
                    old(rng).draws()
                }
                &&& model::request_challenge(
                    pd_addr,
                    old(pd)@,
                    granted,
                    draw,
                    old(self).rx_buf@,
                    final(self).events_since(*old(self)),
                ) == final(self).ended(bytes::vec_result(r), final(pd)@)
            }),
    {
        match keys.secure_key_for(pd_addr) {
            Some(key) => self.send_secure_challenge_with_key_material(pd_addr, pd, key, rng),
            None => {
                assert(self.events_since(*old(self)) =~= Feed::nothing());
                Err(Error::SecureSession(SecureSessionError::KeyUnavailable))
            },
        }
    }

    /// Send SCS_11 with this key.
    fn send_secure_challenge_with_key_material<R: SecureRandom>(
        &mut self,
        pd_addr: u8,
        pd: &mut PdState,
        key: AcuSecureKeyMaterial,
        rng: &mut R,
    ) -> (r: Result<Vec<u8>, Error>)
        ensures
            final(self).follows(*old(self)),
            ({
                let draw = final(rng).draws().last();
                &&& final(rng).draws() == old(rng).draws().push(draw)
                &&& model::send_challenge(
                    pd_addr,
                    old(pd)@,
                    key,
                    draw,
                    old(self).rx_buf@,
                    final(self).events_since(*old(self)),
                ) == final(self).ended(bytes::vec_result(r), final(pd)@)
            }),
    {
        let mut rnd_a: [u8; 8] = [0u8; 8];
        match rng.fill_secure_random(&mut rnd_a) {
            Ok(()) => {},
            Err(e) => {
                assert(self.events_since(*old(self)) =~= Feed::nothing());
                return Err(e);
            },
        }
        let session = Session::<Disconnected>::new(key.scbk).challenge(rnd_a);
        let use_crc = pd.use_crc;
        let sqn = pd.next_sqn;
        let sent = self.send_secure_handshake_with_sqn(
            pd_addr,
            use_crc,
            sqn,
            ScsType::Scs11,
            key.selection,
            &Command::Chlng(Chlng::new(rnd_a)),
        );
        match sent {
            Ok(bytes) => {
                pd.secure_state = Some(
                    AcuSecureState::Challenged { session, key: key.selection },
                );
                Ok(bytes)
            },
            Err(e) => Err(e),
        }
    }

    /// Receive SCS_12 / `osdp_CCRYPT` and verify the PD cryptogram.
    pub fn receive_secure_ccrypt(&mut self, pd: &mut PdState) -> (r: Result<(), Error>)
        ensures
            final(self).follows(*old(self)),
            model::receive_ccrypt(
                old(pd)@,
                old(self).rx_buf@,
                old(self).reply_delay_ms,
                final(self).events_since(*old(self)),
            ) == final(self).ended(r, final(pd)@),
    {
        let reply = match self.recv_loop_with_scb() {
            Ok(reply) => reply,
            Err(e) => {
                return Err(e);
            },
        };
        let ghost heard = *self;
        match take_ccrypt(pd, &reply) {
            Ok(()) => {},
            Err(e) => {
                return Err(e);
            },
        }
        let now: u64 = self.now();
        pd.mark_seen(now);
        pd.bump_sqn();
        proof {
            Self::lemma_timed(*old(self), heard, *self, now);
        }
        Ok(())
    }

    /// Send SCS_13 / `osdp_SCRYPT` using the verified PD cryptogram state.
    pub fn send_secure_scrypt(&mut self, pd_addr: u8, pd: &mut PdState) -> (r: Result<
        Vec<u8>,
        Error,
    >)
        ensures
            final(self).follows(*old(self)),
            model::send_scrypt(
                pd_addr,
                old(pd)@,
                old(self).rx_buf@,
                final(self).events_since(*old(self)),
            ) == final(self).ended(bytes::vec_result(r), final(pd)@),
    {
        let (server_cryptogram, key) = match &pd.secure_state {
            Some(AcuSecureState::Cryptogrammed { session, key }) => (
                session.server_cryptogram(),
                *key,
            ),
            _ => {
                assert(self.events_since(*old(self)) =~= Feed::nothing());
                return Err(Error::SecureSession(SecureSessionError::BadTransition));
            },
        };
        self.send_secure_handshake_with_sqn(
            pd_addr,
            pd.use_crc,
            pd.next_sqn,
            ScsType::Scs13,
            key,
            &Command::SCrypt(SCrypt::new(server_cryptogram)),
        )
    }

    /// Receive SCS_14 / `osdp_RMAC_I` and store the established secure state.
    pub fn receive_secure_rmac_i(&mut self, pd: &mut PdState) -> (r: Result<(), Error>)
        ensures
            final(self).follows(*old(self)),
            model::receive_rmac_i(
                old(pd)@,
                old(self).rx_buf@,
                old(self).reply_delay_ms,
                final(self).events_since(*old(self)),
            ) == final(self).ended(r, final(pd)@),
    {
        let reply = match self.recv_loop_with_scb() {
            Ok(reply) => reply,
            Err(e) => {
                return Err(e);
            },
        };
        let ghost heard = *self;
        match take_rmac_i(pd, &reply) {
            Ok(()) => {},
            Err(e) => {
                return Err(e);
            },
        }
        let now: u64 = self.now();
        pd.mark_seen(now);
        pd.bump_sqn();
        proof {
            Self::lemma_timed(*old(self), heard, *self, now);
        }
        Ok(())
    }

    /// Drain the transport until one reply is complete, and take it. Returns
    /// [`Error::Timeout`] once the per-attempt reply-delay budget is found to have elapsed
    /// without a complete packet: the clock is looked at after every read that leaves none.
    ///
    /// The transport may return short reads, so it is read again and again, but no more than
    /// [`MAX_READS`] times per call. When it has no more bytes ready [`MAX_EMPTY_READS`] times
    /// in a row, this returns [`Error::Timeout`] at once. Either way what has arrived is kept,
    /// and the caller is expected to call again later.
    pub fn receive(&mut self, pd: &mut PdState) -> (r: Result<Reply, Error>)
        ensures
            final(self).follows(*old(self)),
            model::receive(
                old(pd)@,
                old(self).rx_buf@,
                old(self).reply_delay_ms,
                final(self).events_since(*old(self)),
            ) == final(self).ended(reply::reply_result(r), final(pd)@),
    {
        let reply = match self.recv_loop_with_scb() {
            Ok(reply) => reply,
            Err(e) => {
                return Err(e);
            },
        };
        let ghost heard = *self;
        let data = match unseal_secure_reply_if_established(pd, &reply) {
            Ok(data) => data,
            Err(e) => {
                return Err(e);
            },
        };
        let now: u64 = self.now();
        pd.mark_seen(now);
        pd.bump_sqn();
        proof {
            Self::lemma_timed(*old(self), heard, *self, now);
        }
        Reply::decode(reply.code, data.as_slice())
    }

    /// Same as [`Self::receive`] but without bookkeeping, and only for the reply to the
    /// command numbered `expected_sqn`: the PD has to echo it. `osdp_BUSY` is the
    /// documented exception; its number is always zero.
    fn recv_one_with_sqn(&mut self, pd: &mut PdState, expected_sqn: Sqn) -> (r: Result<
        Reply,
        Error,
    >)
        ensures
            final(self).follows(*old(self)),
            model::receive_one(
                old(pd)@,
                expected_sqn,
                old(self).rx_buf@,
                old(self).reply_delay_ms,
                final(self).events_since(*old(self)),
            ) == final(self).ended(reply::reply_result(r), final(pd)@),
    {
        let reply = match self.recv_loop_with_scb() {
            Ok(reply) => reply,
            Err(e) => {
                return Err(e);
            },
        };
        match require_sqn(expected_sqn, reply.code, reply.sqn) {
            Ok(()) => {},
            Err(e) => {
                return Err(e);
            },
        }
        match unseal_secure_reply_if_established(pd, &reply) {
            Ok(data) => Reply::decode(reply.code, data.as_slice()),
            Err(e) => Err(e),
        }
    }

    /// Run the ACU side of the handshake through SCS_11..SCS_14.
    ///
    /// This is a convenience wrapper around the four explicit handshake methods for
    /// transports that can synchronously deliver each PD reply between ACU writes.
    /// Event-loop style integrations can call the individual steps directly. The order is
    /// CHLNG, CCRYPT, SCRYPT, then RMAC_I.
    pub fn establish_secure_channel<K: AcuSecureKeyProvider + ?Sized, R: SecureRandom>(
        &mut self,
        pd_addr: u8,
        pd: &mut PdState,
        keys: &mut K,
        rng: &mut R,
    ) -> (r: Result<(), Error>)
        ensures
            final(self).follows(*old(self)),
            ({
                let granted = final(keys).answers().last().1;
                let draw = final(rng).draws().last();
                &&& final(keys).answers() == old(keys).answers().push((pd_addr, granted))
                &&& final(rng).draws() == if granted is Some {
                    old(rng).draws().push(draw)
                } else {
                    old(rng).draws()
                }
                &&& model::establish(
                    pd_addr,
                    old(pd)@,
                    granted,
                    draw,
                    old(self).rx_buf@,
                    old(self).reply_delay_ms,
                    final(self).events_since(*old(self)),
                ) == final(self).ended(r, final(pd)@)
            }),
    {
        match self.send_secure_challenge(pd_addr, pd, keys, rng) {
            Ok(_) => {},
            Err(e) => {
                return Err(e);
            },
        }
        let ghost challenged = *self;
        let ghost challenged_pd = pd@;
        let got = self.receive_secure_ccrypt(pd);
        let ghost cryptogrammed = *self;
        let ghost cryptogrammed_pd = pd@;
        proof {
            let first = challenged.events_since(*old(self));
            let second = self.events_since(challenged);
            Self::lemma_events_add_up(*old(self), challenged, *self);
            progress::lemma_request_challenge_extends(
                pd_addr,
                old(pd)@,
                keys.answers().last().1,
                rng.draws().last(),
                old(self).rx_buf@,
                first,
                second,
            );
            feed::lemma_followed_by(second, second, second);
        }
        match got {
            Ok(()) => {},
            Err(e) => {
                return Err(e);
            },
        }
        let r = match self.send_secure_scrypt(pd_addr, pd) {
            Ok(_) => {
                let ghost proven = *self;
                let r = self.receive_secure_rmac_i(pd);
                proof {
                    let third = proven.events_since(cryptogrammed);
                    let fourth = self.events_since(proven);
                    Self::lemma_events_add_up(cryptogrammed, proven, *self);
                    progress::lemma_send_scrypt_extends(
                        pd_addr,
                        cryptogrammed_pd,
                        cryptogrammed.rx_buf@,
                        third,
                        fourth,
                    );
                    feed::lemma_followed_by(fourth, fourth, fourth);
                }
                r
            },
            Err(e) => Err(e),
        };
        proof {
            let first = challenged.events_since(*old(self));
            let second = cryptogrammed.events_since(challenged);
            let tail = self.events_since(cryptogrammed);
            Self::lemma_events_add_up(challenged, cryptogrammed, *self);
            Self::lemma_events_add_up(*old(self), challenged, *self);
            progress::lemma_request_challenge_extends(
                pd_addr,
                old(pd)@,
                keys.answers().last().1,
                rng.draws().last(),
                old(self).rx_buf@,
                first,
                second.followed_by(tail),
            );
            progress::lemma_receive_ccrypt_extends(
                challenged_pd,
                challenged.rx_buf@,
                old(self).reply_delay_ms,
                second,
                tail,
            );
            feed::lemma_followed_by(second.followed_by(tail), tail, tail);
            feed::lemma_followed_by(tail, tail, tail);
        }
        r
    }

    /// Send `frame` and receive the answer to it; none on a timeout.
    fn try_once(&mut self, pd: &mut PdState, frame: &[u8], sqn: Sqn) -> (r: Result<
        Option<Reply>,
        Error,
    >)
        ensures
            final(self).follows(*old(self)),
            model::try_once(
                frame@,
                sqn,
                old(pd)@,
                old(self).rx_buf@,
                old(self).reply_delay_ms,
                final(self).events_since(*old(self)),
            ) == final(self).ended(answer_result(r), final(pd)@),
    {
        proof {
            reveal(model::try_once);
        }
        let written = self.put(frame);
        let ghost event = IoEvent::Write(frame@, written);
        let ghost sent = *self;
        if let Err(e) = written {
            proof {
                feed::lemma_followed_by(feed::one_io(event), Feed::nothing(), Feed::nothing());
                feed::lemma_first(event, 0, Feed::nothing());
            }
            return Err(e);
        }
        let got = self.recv_one_with_sqn(pd, sqn);
        proof {
            Self::lemma_events_add_up(*old(self), sent, *self);
            feed::lemma_first(event, 0, self.events_since(sent));
        }
        let ghost outcome = reply::reply_result(got);
        let answer = match got {
            Ok(reply) => Ok(Some(reply)),
            Err(Error::Timeout) => Ok(None),
            Err(e) => Err(e),
        };
        assert(answer_result(answer) == model::answer_of(outcome));
        answer
    }

    /// Send `frame` until there is an answer or the limits are reached.
    fn run_attempts(
        &mut self,
        pd: &mut PdState,
        frame: &[u8],
        secured: bool,
        sqn: Sqn,
        started: u64,
    ) -> (r: Result<ExchangeOutcome, Error>)
        ensures
            final(self).follows(*old(self)),
            model::attempt(
                frame@,
                secured,
                sqn,
                started,
                0,
                old(pd)@,
                old(self).rx_buf@,
                old(self).limits(),
                final(self).events_since(*old(self)),
            ) == final(self).ended(exchange_result(r), final(pd)@),
    {
        let retry = self.retry;
        let mut failed: u16 = 0;
        let ghost first = (pd@, self.rx_buf@);
        let ghost limits = self.limits();
        proof {
            assert(self.events_since(*old(self)) =~= Feed::nothing());
            progress::lemma_trying_begins(frame@, secured, sqn, started, first, limits);
        }
        loop
            invariant
                self.follows(*old(self)),
                limits == old(self).limits(),
                first == (old(pd)@, old(self).rx_buf@),
                failed <= retry.max_retries,
                retry == old(self).retry,
                progress::trying(
                    frame@,
                    secured,
                    sqn,
                    started,
                    first,
                    limits,
                    self.events_since(*old(self)),
                    failed as nat,
                    pd@,
                    self.rx_buf@,
                ),
            decreases retry.max_retries - failed,
        {
            let ghost top = *self;
            let ghost done = self.events_since(*old(self));
            let ghost before = pd@;
            let got = self.try_once(pd, frame, sqn);
            let ghost heard = *self;
            let ghost ran = Ran {
                outcome: answer_result(got),
                pd: pd@,
                rx: self.rx_buf@,
                rest: Feed::nothing(),
            };
            let answer = match got {
                Ok(answer) => answer,
                Err(e) => {
                    proof {
                        Self::lemma_events_add_up(*old(self), top, *self);
                        progress::lemma_trying_goes_on(
                            frame@,
                            secured,
                            sqn,
                            started,
                            first,
                            limits,
                            done,
                            failed as nat,
                            before,
                            top.rx_buf@,
                            self.events_since(top),
                            ran,
                            0,
                        );
                    }
                    return Err(e);
                },
            };
            let now: u64 = self.now();
            proof {
                Self::lemma_events_add_up(top, heard, *self);
                Self::lemma_events_add_up(*old(self), top, *self);
                progress::lemma_trying_goes_on(
                    frame@,
                    secured,
                    sqn,
                    started,
                    first,
                    limits,
                    done,
                    failed as nat,
                    before,
                    top.rx_buf@,
                    heard.events_since(top),
                    ran,
                    now,
                );
            }
            match judge_attempt(pd, answer, secured, failed, started, retry, now) {
                Some(outcome) => {
                    return Ok(outcome);
                },
                None => {
                    failed = failed + 1;
                },
            }
        }
    }

    /// Run a command/reply round-trip with full retry and off-line policy.
    ///
    /// - On a clean reply, returns [`ExchangeOutcome::Reply`].
    /// - On `osdp_BUSY`, returns [`ExchangeOutcome::Busy`] without advancing the sequence
    ///   number. The caller decides whether to retry now or service other PDs first.
    /// - On timeout, retries up to [`RetryConfig::max_retries`] additional times *re-using
    ///   the same frame*, which asks the PD to repeat its prior reply.
    /// - When the PD has been silent for [`crate::OFFLINE_THRESHOLD_MS`], returns
    ///   [`ExchangeOutcome::Offline`].
    ///
    /// In a secure session, a PD in step with the session opens the frame to the command's
    /// DATA.
    ///
    /// ```mermaid
    /// flowchart TD
    ///     enter([exchange]) --> off{is_offline?}
    ///     off -- yes --> O[Offline]
    ///     off -- no --> send[send]
    ///     send --> recv[recv_one_with_sqn]
    ///     recv --> kind{reply?}
    ///     kind -- BUSY --> bu["Busy<br/>(SQN unchanged)"]
    ///     kind -- typed --> ok["Reply<br/>(bump_sqn)"]
    ///     kind -- Timeout --> retry{"retries left?<br/>budget left?<br/>not offline?"}
    ///     retry -- yes --> send
    ///     retry -- no --> T[Timeout]
    /// ```
    pub fn exchange(&mut self, pd_addr: u8, pd: &mut PdState, command: &Command) -> (r: Result<
        ExchangeOutcome,
        Error,
    >)
        ensures
            final(self).follows(*old(self)),
            model::exchange(
                pd_addr,
                old(pd)@,
                command@,
                old(self).rx_buf@,
                old(self).limits(),
                final(self).events_since(*old(self)),
            ) == final(self).ended(exchange_result(r), final(pd)@),
            ({
                let (frame, after) = steps::request(
                    pd_addr,
                    old(pd)@,
                    old(pd)@.next_sqn,
                    command@,
                );
                let started = final(self).events_since(*old(self)).clock[0];
                old(pd)@.is_secure() && !old(pd)@.is_offline(started) && frame is Ok
                    ==> frame::opens_to(
                    old(pd)@.session()->0,
                    frame->Ok_0,
                    after.session()->0,
                    command@.data()->Ok_0,
                )
            }),
    {
        let started: u64 = self.now();
        let ghost begun = *self;
        proof {
            feed::lemma_followed_by(feed::one_reading(started), Feed::nothing(), Feed::nothing());
            feed::lemma_first(IoEvent::Read(Err(Error::Io)), started, Feed::nothing());
        }
        if pd.is_offline(started) {
            return Ok(ExchangeOutcome::Offline);
        }
        let sqn = pd.next_sqn;
        let secured = pd.is_secure();
        let built = if secured {
            secure_request_frame(pd_addr, pd, sqn, command)
        } else {
            plain_request_frame(pd_addr, pd.use_crc, sqn, command)
        };
        let frame = match built {
            Ok(frame) => frame,
            Err(e) => {
                return Err(e);
            },
        };
        let r = self.run_attempts(pd, frame.as_slice(), secured, sqn, started);
        proof {
            Self::lemma_events_add_up(*old(self), begun, *self);
            feed::lemma_first(
                IoEvent::Read(Err(Error::Io)),
                started,
                self.events_since(begun),
            );
        }
        r
    }
}

} // verus!
