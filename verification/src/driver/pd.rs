//! PD (Peripheral Device) driver: receives commands from the ACU and emits replies.
//!
//! The dispatcher decodes incoming [`Command`] values and delegates response generation to
//! a caller-supplied handler. The PD's side of the secure channel is kept here.

pub mod laws;
pub mod model;
pub mod outcomes;
pub mod state;
pub mod steps;

use vstd::prelude::*;
use vstd::slice::slice_to_vec;

use crate::bytes;
use crate::bytes::{append, drop_front, position, range};
use crate::clock::Clock;
use crate::command::{Command, CommandCode};
use crate::driver::pd::model::{Answers, Asked, Drained, PdView, Polled, MAX_DRAIN_READS};
use crate::driver::pd::state::HandlerEvent;
use crate::driver::pd::steps::{
    command_data, encode_reply_secure_if_established, handle_secure_handshake, requested_key,
    ChallengeMaterial, CommandFrame, ParsedCommand,
};
use crate::error::Error;
use crate::packet::codec;
use crate::packet::codec::ParsedPacket;
use crate::packet::control::Sqn;
use crate::reply::{Reply, ReplyView};
use crate::secure::session::SecureRandom;
use crate::transport::{read_chunk, IoEvent, Transport};
use crate::{MAX_BUS_PACKET, SOM};

pub use crate::driver::pd::state::{
    HandlerKeys, PdHandler, PdSecureConfig, PdSecureKey, PdSecureKeyProvider, PdSecureState,
};

verus! {

/// PD driver. `K` supplies the secure-channel keys; without a provider the handler does.
pub struct Pd<T: Transport, C: Clock, H: PdHandler, K: PdSecureKeyProvider = HandlerKeys> {
    /// The bus.
    pub transport: T,
    /// Time source.
    pub clock: C,
    /// PD's own bus address.
    pub address: u8,
    /// Whether to advertise CRC trailers in replies.
    pub use_crc: bool,
    /// Application logic.
    pub handler: H,
    /// Key policy, if it is not the handler's.
    pub keys: Option<K>,
    /// Bytes received and not consumed.
    pub rx_buf: Vec<u8>,
    /// Last SQN we acted upon.
    pub last_sqn: Option<Sqn>,
    /// Last reply we sent (so we can repeat it on a duplicate SQN).
    pub last_reply: Option<Vec<u8>>,
    /// Secure-channel identity, if the secure channel is enabled.
    pub secure_config: Option<PdSecureConfig>,
    /// Progress of the secure channel.
    pub secure_state: Option<PdSecureState>,
    /// What the application answered last, for specifications only.
    pub answers: Ghost<Answers>,
}

/// Outcome of scanning in terms of contents.
pub open spec fn scan_result(r: Result<Option<ParsedCommand>, Error>) -> Result<
    Option<CommandFrame>,
    Error,
> {
    match r {
        Ok(Some(cmd)) => Ok(Some(cmd@)),
        Ok(None) => Ok(None),
        Err(e) => Err(e),
    }
}

/// The error of a PD whose handler supplies no random challenge.
pub open spec fn no_random() -> Error {
    Error::MalformedPayload { code: 0x76, reason: "secure-channel random unavailable" }
}

/// What a handler that is asked for a random challenge comes to.
pub open spec fn handler_random(b: Option<[u8; 8]>) -> Result<Seq<u8>, Error> {
    match b {
        Some(rnd_b) => Ok(rnd_b@),
        None => Err(no_random()),
    }
}

impl<T: Transport, C: Clock, H: PdHandler, K: PdSecureKeyProvider> View for Pd<T, C, H, K> {
    type V = PdView;

    open spec fn view(&self) -> PdView {
        PdView {
            address: self.address,
            use_crc: self.use_crc,
            rx: self.rx_buf@,
            last_sqn: self.last_sqn,
            last_reply: match self.last_reply {
                Some(r) => Some(r@),
                None => None,
            },
            config: steps::config_view(self.secure_config),
            secure: state::secure_view(self.secure_state),
        }
    }
}

impl<T: Transport, C: Clock, H: PdHandler> Pd<T, C, H> {
    /// New driver.
    pub fn new(transport: T, clock: C, address: u8, handler: H) -> (pd: Self)
        ensures
            pd.transport == transport,
            pd.clock == clock,
            pd.handler == handler,
            pd.keys is None,
            pd@ == (PdView {
                address,
                use_crc: true,
                rx: Seq::empty(),
                last_sqn: None,
                last_reply: None,
                config: None,
                secure: None,
            }),
    {
        Pd {
            transport,
            clock,
            address,
            use_crc: true,
            handler,
            keys: None,
            rx_buf: Vec::with_capacity(MAX_BUS_PACKET),
            last_sqn: None,
            last_reply: None,
            secure_config: None,
            secure_state: None,
            answers: Ghost(Answers { key: None, random: Err(no_random()), reply: ReplyView::Ack }),
        }
    }
}

impl<T: Transport, C: Clock, H: PdHandler, K: PdSecureKeyProvider> Pd<T, C, H, K> {
    /// The transport operations that lead from `before` to this driver.
    pub open spec fn io_since(self, before: Self) -> Seq<IoEvent> {
        self.transport.log().skip(before.transport.log().len() as int)
    }

    /// The same driver, but for what the bus and the application have seen.
    pub open spec fn follows(self, before: Self) -> bool {
        &&& self.clock == before.clock
        &&& before.transport.log().is_prefix_of(self.transport.log())
    }

    /// What a poll that began at `before` and ended here comes to.
    pub open spec fn polled(self, before: Self) -> Option<Polled> {
        model::poll(before@, self.answers@, self.io_since(before))
    }

    /// Handler and key provider have been asked what a poll asks, and have given the
    /// answers that it went by.
    pub open spec fn consulted(self, before: Self, p: Polled, own_random: bool) -> bool {
        &&& self.handler.history() == before.handler.history() + model::handler_events(
            p.asked,
            self.answers@,
            before.keys is None,
            own_random,
        )
        &&& match (before.keys, self.keys) {
            (None, None) => true,
            (Some(k0), Some(k1)) => k1.answers() == match p.asked.key {
                Some(selection) => k0.answers().push((selection, self.answers@.key)),
                None => k0.answers(),
            },
            _ => false,
        }
    }

    /// A poll seen from the command on that it acts upon.
    proof fn lemma_acted(before: Self, seen: Self, now: Self)
        requires
            before.transport.log().is_prefix_of(seen.transport.log()),
            seen.transport.log().is_prefix_of(now.transport.log()),
        ensures
            before.transport.log().is_prefix_of(now.transport.log()),
            now.io_since(before) == seen.io_since(before) + now.io_since(seen),
            now.transport.log() == seen.transport.log() ==> now.io_since(seen) == Seq::<
                IoEvent,
            >::empty(),
    {
        assert(now.io_since(before) =~= seen.io_since(before) + now.io_since(seen));
        if now.transport.log() == seen.transport.log() {
            assert(now.io_since(seen) =~= Seq::<IoEvent>::empty());
        }
    }

    /// Whoever holds the keys has been asked for the key that `asked` says, and nothing else
    /// has been asked.
    pub open spec fn asked_for(self, before: Self, asked: Asked) -> bool {
        &&& self.handler.history() == match (asked.key, self.answers@.key) {
            (Some(selection), Some(k)) => if before.keys is None {
                before.handler.history().push(HandlerEvent::Key(selection, k))
            } else {
                before.handler.history()
            },
            _ => before.handler.history(),
        }
        &&& match (before.keys, self.keys) {
            (None, None) => true,
            (Some(k0), Some(k1)) => k1.answers() == match asked.key {
                Some(selection) => k0.answers().push((selection, self.answers@.key)),
                None => k0.answers(),
            },
            _ => false,
        }
    }

    /// Enable PD-side secure-channel handshake handling. The handler supplies the keys.
    pub fn with_secure_channel(self, config: PdSecureConfig) -> (pd: Self)
        ensures
            pd@ == (PdView { config: Some(config.cuid@), secure: None, ..self@ }),
            pd.transport == self.transport,
            pd.clock == self.clock,
            pd.handler == self.handler,
            pd.keys == self.keys,
    {
        let mut pd = self;
        pd.secure_config = Some(config);
        pd.secure_state = None;
        pd
    }

    /// Enable PD-side secure-channel handshake handling with a key provider.
    pub fn with_secure_channel_keys<P: PdSecureKeyProvider>(
        self,
        config: PdSecureConfig,
        keys: P,
    ) -> (pd: Pd<T, C, H, P>)
        ensures
            pd@ == (PdView { config: Some(config.cuid@), secure: None, ..self@ }),
            pd.transport == self.transport,
            pd.clock == self.clock,
            pd.handler == self.handler,
            pd.keys == Some(keys),
    {
        Pd {
            transport: self.transport,
            clock: self.clock,
            address: self.address,
            use_crc: self.use_crc,
            handler: self.handler,
            keys: Some(keys),
            rx_buf: self.rx_buf,
            last_sqn: self.last_sqn,
            last_reply: self.last_reply,
            secure_config: Some(config),
            secure_state: None,
            answers: self.answers,
        }
    }

    /// Borrow the underlying transport.
    pub fn transport(&mut self) -> (t: &mut T)
        ensures
            *t == old(self).transport,
            *final(self) == (Pd { transport: *final(t), ..*old(self) }),
    {
        &mut self.transport
    }

    /// Look for a command in what has been received.
    fn scan(&mut self) -> (r: Result<Option<ParsedCommand>, Error>)
        ensures
            (scan_result(r), final(self).rx_buf@) == model::scan_command(
                old(self).address,
                old(self).rx_buf@,
            ),
            *final(self) == (Pd { rx_buf: final(self).rx_buf, ..*old(self) }),
            r matches Ok(Some(cmd)) ==> cmd@.well_formed(),
    {
        loop
            invariant
                model::scan_command(old(self).address, self.rx_buf@) == model::scan_command(
                    old(self).address,
                    old(self).rx_buf@,
                ),
                *self == (Pd { rx_buf: self.rx_buf, ..*old(self) }),
            decreases self.rx_buf@.len(),
        {
            let som_pos: usize = match position(self.rx_buf.as_slice(), SOM) {
                Some(at) => at,
                None => {
                    return Ok(None);
                },
            };
            proof {
                model::lemma_scanned_is_well_formed(self.address, self.rx_buf@);
            }
            drop_front(&mut self.rx_buf, som_pos);
            match ParsedPacket::parse(self.rx_buf.as_slice()) {
                Ok((parsed, used)) => {
                    proof {
                        codec::law_parse_is_local(self.rx_buf@);
                    }
                    if parsed.addr.pd_addr() != self.address && !parsed.addr.is_broadcast() {
                        drop_front(&mut self.rx_buf, used);
                        continue;
                    }
                    let code = CommandCode::from_byte(parsed.code)?;
                    let scb = match parsed.scb {
                        Some(scb) => Some(scb.to_owned()),
                        None => None,
                    };
                    let raw = slice_to_vec(range(self.rx_buf.as_slice(), 0, used));
                    let cmd = ParsedCommand {
                        code,
                        sqn: parsed.ctrl.sqn,
                        scb,
                        data: slice_to_vec(parsed.data),
                        raw,
                    };
                    assert(raw@ =~= self.rx_buf@.take(used as int));
                    drop_front(&mut self.rx_buf, used);
                    return Ok(Some(cmd));
                },
                Err(Error::Truncated { .. }) => {
                    return Ok(None);
                },
                Err(Error::BadSom(_)) => {
                    drop_front(&mut self.rx_buf, 1);
                },
                Err(other) => {
                    return Err(other);
                },
            }
        }
    }

    /// Read until a command is complete or nothing more comes.
    fn next_command(&mut self) -> (r: Result<Option<ParsedCommand>, Error>)
        ensures
            old(self).transport.log().is_prefix_of(final(self).transport.log()),
            model::drain(
                old(self).address,
                old(self).rx_buf@,
                0,
                final(self).io_since(*old(self)),
            ) == Some(
                Drained {
                    outcome: scan_result(r),
                    rx: final(self).rx_buf@,
                    rest: Seq::empty(),
                },
            ),
            *final(self) == (Pd {
                rx_buf: final(self).rx_buf,
                transport: final(self).transport,
                ..*old(self)
            }),
            r matches Ok(Some(cmd)) ==> cmd@.well_formed(),
    {
        let mut reads: u64 = 0;
        proof {
            assert(self.io_since(*old(self)) =~= Seq::<IoEvent>::empty());
            assert forall|rest: Seq<IoEvent>|
                #[trigger] (Seq::<IoEvent>::empty() + rest) == rest by {
                assert(Seq::<IoEvent>::empty() + rest =~= rest);
            }
        }
        loop
            invariant
                reads < MAX_DRAIN_READS,
                old(self).transport.log().is_prefix_of(self.transport.log()),
                *self == (Pd { rx_buf: self.rx_buf, transport: self.transport, ..*old(self) }),
                model::draining(
                    old(self).address,
                    old(self).rx_buf@,
                    self.io_since(*old(self)),
                    self.rx_buf@,
                    reads as nat,
                ),
            decreases MAX_DRAIN_READS - reads,
        {
            let ghost done = self.io_since(*old(self));
            let ghost cur = self.rx_buf@;
            let read = read_chunk(&mut self.transport);
            proof {
                assert(self.io_since(*old(self)) =~= done.push(
                    IoEvent::Read(bytes::vec_result(read)),
                ));
                model::lemma_draining_reads(
                    old(self).address,
                    old(self).rx_buf@,
                    done,
                    cur,
                    reads as nat,
                    bytes::vec_result(read),
                );
            }
            let more = read?;
            append(&mut self.rx_buf, more.as_slice());
            let found = self.scan()?;
            reads = reads + 1;
            if found.is_some() || more.len() == 0 || reads >= MAX_DRAIN_READS {
                return Ok(found);
            }
        }
    }

    /// Send the last reply again.
    fn repeat_reply(&mut self) -> (r: Result<bool, Error>)
        requires
            old(self).last_sqn is Some,
        ensures
            old(self).transport.log().is_prefix_of(final(self).transport.log()),
            model::repeat(old(self)@, final(self).io_since(*old(self))) == Some(
                Polled {
                    outcome: r,
                    pd: final(self)@,
                    asked: model::Asked::nothing(),
                    rest: Seq::empty(),
                },
            ),
            *final(self) == (Pd { transport: final(self).transport, ..*old(self) }),
    {
        if let Some(reply) = &self.last_reply {
            let r = self.transport.write_all(reply.as_slice());
            assert(self.io_since(*old(self)) =~= seq![IoEvent::Write(reply@, r)]);
            assert(self.io_since(*old(self)).drop_first() =~= Seq::<IoEvent>::empty());
            if let Err(e) = r {
                return Err(e);
            }
        } else {
            assert(self.io_since(*old(self)) =~= Seq::<IoEvent>::empty());
        }
        Ok(true)
    }

    /// Send the reply to command `sqn`, and remember it.
    fn send_reply(&mut self, sqn: Sqn, bytes: Vec<u8>) -> (r: Result<bool, Error>)
        ensures
            old(self).transport.log().is_prefix_of(final(self).transport.log()),
            forall|asked: Asked| #[trigger]
                model::reply_with(
                    old(self)@,
                    sqn,
                    bytes@,
                    asked,
                    final(self).io_since(*old(self)),
                ) == Some(Polled { outcome: r, pd: final(self)@, asked, rest: Seq::empty() }),
            *final(self) == (Pd {
                transport: final(self).transport,
                last_sqn: final(self).last_sqn,
                last_reply: final(self).last_reply,
                ..*old(self)
            }),
    {
        let r = self.transport.write_all(bytes.as_slice());
        assert(self.io_since(*old(self)) =~= seq![IoEvent::Write(bytes@, r)]);
        assert(self.io_since(*old(self)).drop_first() =~= Seq::<IoEvent>::empty());
        if let Err(e) = r {
            return Err(e);
        }
        self.last_sqn = Some(sqn);
        self.last_reply = Some(bytes);
        let _ = self.clock.now_ms();
        Ok(true)
    }

    /// Hand a command that is no part of a handshake to the application, and send its reply.
    fn dispatch(&mut self, cmd: &ParsedCommand) -> (r: Result<bool, Error>)
        requires
            cmd@.well_formed(),
        ensures
            old(self).transport.log().is_prefix_of(final(self).transport.log()),
            ({
                let io = final(self).io_since(*old(self));
                let answers = final(self).answers@;
                let p = model::dispatch(old(self)@, cmd@, Asked::nothing(), answers, io)->0;
                &&& forall|asked: Asked|
                    asked.command is None ==> #[trigger] model::dispatch(
                        old(self)@,
                        cmd@,
                        asked,
                        answers,
                        io,
                    ) == Some(
                        Polled {
                            outcome: r,
                            pd: final(self)@,
                            asked: Asked { command: p.asked.command, ..asked },
                            rest: Seq::empty(),
                        },
                    )
                &&& final(self).handler.history() == match p.asked.command {
                    Some(command) => old(self).handler.history().push(
                        HandlerEvent::Replied(command, answers.reply),
                    ),
                    None => old(self).handler.history(),
                }
                &&& match p.asked.command {
                    Some(command) => exists|h: &mut H, c: &Command, reply: Reply|
                        {
                            &&& *h == old(self).handler
                            &&& *final(h) == final(self).handler
                            &&& c@ == command
                            &&& reply@ == answers.reply
                            &&& #[trigger] call_ensures(H::on_command, (h, c), reply)
                        },
                    None => final(self).handler == old(self).handler,
                }
                &&& r is Ok && p.asked.command is Some ==> model::reply_opens(
                    steps::open_command(old(self)@.secure, cmd@).1,
                    final(self)@.last_reply,
                    final(self)@.secure,
                    answers.reply,
                )
            }),
            final(self).answers@ == (Answers {
                reply: final(self).answers@.reply,
                ..old(self).answers@
            }),
            final(self).keys == old(self).keys,
            final(self).clock == old(self).clock,
    {
        assert(self.io_since(*old(self)) =~= Seq::<IoEvent>::empty());
        let data = match command_data(&mut self.secure_state, cmd) {
            Ok(data) => data,
            Err(e) => {
                return Err(e);
            },
        };
        let command = match Command::decode(cmd.code, data.as_slice()) {
            Ok(command) => command,
            Err(e) => {
                return Err(e);
            },
        };
        let reply = self.handler.on_command(&command);
        self.answers = Ghost(Answers { reply: reply@, ..self.answers@ });
        let encoded = encode_reply_secure_if_established(
            self.address,
            self.use_crc,
            &mut self.secure_state,
            cmd.sqn,
            &reply,
        );
        match encoded {
            Ok(bytes) => self.send_reply(cmd.sqn, bytes),
            Err(e) => Err(e),
        }
    }

    /// Answer a command that was received. `material` is there where a challenge is taken
    /// up.
    fn answer(&mut self, cmd: &ParsedCommand, material: Option<ChallengeMaterial>) -> (r: Result<
        bool,
        Error,
    >)
        requires
            cmd@.well_formed(),
            steps::material_fits(old(self)@.config, cmd@, steps::materials_view(material)),
        ensures
            old(self).transport.log().is_prefix_of(final(self).transport.log()),
            ({
                let p = model::answer(
                    old(self)@,
                    cmd@,
                    steps::materials_view(material),
                    final(self).answers@,
                    final(self).io_since(*old(self)),
                );
                &&& p is Some
                &&& p->0.outcome == r
                &&& p->0.pd == final(self)@
                &&& p->0.rest == Seq::<IoEvent>::empty()
                &&& final(self).handler.history() == match p->0.asked.command {
                    Some(command) => old(self).handler.history().push(
                        HandlerEvent::Replied(command, final(self).answers@.reply),
                    ),
                    None => old(self).handler.history(),
                }
                &&& match p->0.asked.command {
                    Some(command) => exists|h: &mut H, c: &Command, reply: Reply|
                        {
                            &&& *h == old(self).handler
                            &&& *final(h) == final(self).handler
                            &&& c@ == command
                            &&& reply@ == final(self).answers@.reply
                            &&& #[trigger] call_ensures(H::on_command, (h, c), reply)
                        },
                    None => final(self).handler == old(self).handler,
                }
                &&& r is Ok && p->0.asked.command is Some ==> model::reply_opens(
                    steps::open_command(old(self)@.secure, cmd@).1,
                    final(self)@.last_reply,
                    final(self)@.secure,
                    final(self).answers@.reply,
                )
            }),
            final(self).answers@ == (Answers {
                reply: final(self).answers@.reply,
                ..old(self).answers@
            }),
            final(self).keys == old(self).keys,
            final(self).clock == old(self).clock,
    {
        proof {
            reveal(model::answer);
        }
        assert(self.io_since(*old(self)) =~= Seq::<IoEvent>::empty());
        let handshake = handle_secure_handshake(
            self.address,
            self.use_crc,
            self.secure_config,
            &mut self.secure_state,
            cmd,
            material,
        );
        match handshake {
            Err(e) => {
                return Err(e);
            },
            Ok(Some(bytes)) => {
                return self.send_reply(cmd.sqn, bytes);
            },
            Ok(None) => {},
        }
        self.dispatch(cmd)
    }

    /// Ask for a key: the provider if there is one, else the handler.
    fn key_for(&mut self, selection: PdSecureKey) -> (r: Option<[u8; 16]>)
        ensures
            final(self).answers@ == (Answers {
                key: match r {
                    Some(k) => Some(k@),
                    None => None,
                },
                ..old(self).answers@
            }),
            *final(self) == (Pd {
                handler: final(self).handler,
                keys: final(self).keys,
                answers: final(self).answers,
                ..*old(self)
            }),
            if old(self).keys is None {
                exists|h: &mut H|
                    {
                        &&& *h == old(self).handler
                        &&& *final(h) == final(self).handler
                        &&& #[trigger] call_ensures(H::secure_channel_key, (h, selection), r)
                    }
            } else {
                final(self).handler == old(self).handler
            },
            final(self).handler.history() == match r {
                Some(k) => if old(self).keys is None {
                    old(self).handler.history().push(HandlerEvent::Key(selection, k@))
                } else {
                    old(self).handler.history()
                },
                None => old(self).handler.history(),
            },
            match (old(self).keys, final(self).keys) {
                (None, None) => true,
                (Some(k0), Some(k1)) => k1.answers() == k0.answers().push(
                    (selection, final(self).answers@.key),
                ),
                _ => false,
            },
    {
        let r = match self.keys.take() {
            Some(keys) => {
                let mut keys = keys;
                let r = keys.secure_key_for(selection);
                self.keys = Some(keys);
                r
            },
            None => self.handler.secure_channel_key(selection),
        };
        self.answers = Ghost(
            Answers {
                key: match r {
                    Some(k) => Some(k@),
                    None => None,
                },
                ..self.answers@
            },
        );
        r
    }

    /// Read, and take the next command to be acted upon. The number of the last one only
    /// asks for its reply again.
    fn fresh_command(&mut self) -> (r: Result<ParsedCommand, Result<bool, Error>>)
        ensures
            old(self).transport.log().is_prefix_of(final(self).transport.log()),
            *final(self) == (Pd {
                rx_buf: final(self).rx_buf,
                transport: final(self).transport,
                ..*old(self)
            }),
            match r {
                Err(outcome) => final(self).polled(*old(self)) == Some(
                    Polled {
                        outcome,
                        pd: final(self)@,
                        asked: Asked::nothing(),
                        rest: Seq::empty(),
                    },
                ),
                Ok(cmd) => {
                    &&& cmd@.well_formed()
                    &&& final(self).last_sqn != Some(cmd@.sqn)
                    &&& forall|rest: Seq<IoEvent>|
                        cmd@ == model::first_command(
                            old(self)@,
                            #[trigger] (final(self).io_since(*old(self)) + rest),
                        )
                    &&& forall|answers: Answers, rest: Seq<IoEvent>|
                        model::poll(
                            old(self)@,
                            answers,
                            #[trigger] (final(self).io_since(*old(self)) + rest),
                        ) == #[trigger] model::act(final(self)@, cmd@, answers, rest)
                },
            },
    {
        let found = self.next_command();
        let ghost seen = *self;
        let ghost used = self.io_since(*old(self));
        proof {
            reveal(model::poll);
            Self::lemma_acted(*old(self), seen, seen);
            assert forall|rest: Seq<IoEvent>|
                model::drain(self.address, old(self).rx_buf@, 0, #[trigger] (used + rest)) == Some(
                    Drained { outcome: scan_result(found), rx: self.rx_buf@, rest },
                ) by {
                model::lemma_drain_extends(self.address, old(self).rx_buf@, 0, used, rest);
                assert(Seq::<IoEvent>::empty() + rest =~= rest);
            }
        }
        let cmd = match found {
            Ok(Some(cmd)) => cmd,
            Ok(None) => {
                return Err(Ok(false));
            },
            Err(e) => {
                return Err(Err(e));
            },
        };
        let repeated = match self.last_sqn {
            Some(last) => last == cmd.sqn,
            None => false,
        };
        if repeated {
            let r = self.repeat_reply();
            proof {
                Self::lemma_acted(*old(self), seen, *self);
            }
            return Err(r);
        }
        Ok(cmd)
    }

    /// If a command is a challenge that is taken up, get the key that it asks for.
    fn challenge_key(&mut self, cmd: &ParsedCommand) -> (r: Result<
        Option<(PdSecureKey, [u8; 16])>,
        Error,
    >)
        ensures
            final(self).transport == old(self).transport,
            final(self).clock == old(self).clock,
            final(self)@ == old(self)@,
            final(self).answers@ == (Answers {
                key: final(self).answers@.key,
                ..old(self).answers@
            }),
            match steps::challenge_asks(old(self)@.config, cmd@) {
                Ok(Some(selection)) if old(self).keys is None => exists|
                    h: &mut H,
                    k: Option<[u8; 16]>,
                |
                    {
                        &&& *h == old(self).handler
                        &&& *final(h) == final(self).handler
                        &&& state::array_view(k) == final(self).answers@.key
                        &&& #[trigger] call_ensures(H::secure_channel_key, (h, selection), k)
                    },
                _ => final(self).handler == old(self).handler,
            },
            match r {
                Err(e) => {
                    let asked = Asked {
                        key: match steps::challenge_asks(old(self)@.config, cmd@) {
                            Ok(key) => key,
                            Err(_) => None,
                        },
                        random: false,
                        command: None,
                    };
                    &&& forall|rest: Seq<IoEvent>|
                        old(self).last_sqn != Some(cmd@.sqn) ==> #[trigger] model::act(
                            old(self)@,
                            cmd@,
                            final(self).answers@,
                            rest,
                        ) == Some(Polled { outcome: Err(e), pd: old(self)@, asked, rest })
                    &&& final(self).asked_for(*old(self), asked)
                },
                Ok(None) => {
                    &&& steps::challenge_asks(old(self)@.config, cmd@) == Ok::<
                        Option<PdSecureKey>,
                        Error,
                    >(None)
                    &&& *final(self) == *old(self)
                },
                Ok(Some((selection, scbk))) => {
                    &&& steps::challenge_asks(old(self)@.config, cmd@) == Ok::<
                        Option<PdSecureKey>,
                        Error,
                    >(Some(selection))
                    &&& final(self).answers@.key == Some(scbk@)
                    &&& final(self).asked_for(
                        *old(self),
                        Asked { key: Some(selection), random: false, command: None },
                    )
                },
            },
    {
        match requested_key(self.secure_config, cmd) {
            Err(e) => Err(e),
            Ok(None) => Ok(None),
            Ok(Some(selection)) => match self.key_for(selection) {
                Some(scbk) => Ok(Some((selection, scbk))),
                None => Err(
                    Error::MalformedPayload {
                        code: 0x76,
                        reason: "secure-channel key unavailable",
                    },
                ),
            },
        }
    }

    /// Drain the transport until a command for this PD is complete, dispatch it, and reply on
    /// the wire. Commands that have arrived behind it are left for later polls. The handler
    /// supplies the random challenge of a handshake.
    ///
    /// Returns `Ok(true)` if a packet was processed, `Ok(false)` if more bytes are required:
    /// then a read has brought nothing. (A poll that never sees that ends after
    /// [`model::MAX_DRAIN_READS`] reads.) The handler is called for exactly what the command
    /// asks of it, and what it returns is what the reply is made of. In a secure session, an
    /// ACU in step with the session opens the reply to the DATA of what the handler returned.
    pub fn poll_once(&mut self) -> (r: Result<bool, Error>)
        ensures
            final(self).follows(*old(self)),
            final(self).polled(*old(self)) is Some,
            ({
                let p = final(self).polled(*old(self))->0;
                &&& p.outcome == r
                &&& p.pd == final(self)@
                &&& p.rest == Seq::<IoEvent>::empty()
                &&& final(self).consulted(*old(self), p, true)
                &&& match p.asked.key {
                    Some(selection) if old(self).keys is None => exists|
                        h: &mut H,
                        k: Option<[u8; 16]>,
                    |
                        {
                            &&& *h == old(self).handler
                            &&& state::array_view(k) == final(self).answers@.key
                            &&& #[trigger] call_ensures(H::secure_channel_key, (h, selection), k)
                            &&& if p.asked.random {
                                exists|g: &mut H, b: Option<[u8; 8]>|
                                    {
                                        &&& *g == *final(h)
                                        &&& *final(g) == final(self).handler
                                        &&& handler_random(b) == final(self).answers@.random
                                        &&& #[trigger] call_ensures(
                                            H::secure_channel_random,
                                            (g,),
                                            b,
                                        )
                                    }
                            } else {
                                *final(h) == final(self).handler
                            }
                        },
                    Some(_) => if p.asked.random {
                        exists|g: &mut H, b: Option<[u8; 8]>|
                            {
                                &&& *g == old(self).handler
                                &&& *final(g) == final(self).handler
                                &&& handler_random(b) == final(self).answers@.random
                                &&& #[trigger] call_ensures(H::secure_channel_random, (g,), b)
                            }
                    } else {
                        final(self).handler == old(self).handler
                    },
                    None => match p.asked.command {
                        Some(command) => exists|h: &mut H, c: &Command, reply: Reply|
                            {
                                &&& *h == old(self).handler
                                &&& *final(h) == final(self).handler
                                &&& c@ == command
                                &&& reply@ == final(self).answers@.reply
                                &&& #[trigger] call_ensures(H::on_command, (h, c), reply)
                            },
                        None => final(self).handler == old(self).handler,
                    },
                }
                &&& r is Ok && p.asked.command is Some ==> model::reply_opens(
                    steps::open_command(
                        old(self)@.secure,
                        model::first_command(old(self)@, final(self).io_since(*old(self))),
                    ).1,
                    final(self)@.last_reply,
                    final(self)@.secure,
                    final(self).answers@.reply,
                )
            }),
    {
        let cmd = match self.fresh_command() {
            Ok(cmd) => cmd,
            Err(r) => {
                proof {
                    model::lemma_handler_events(
                        self.handler.history(),
                        Asked::nothing(),
                        self.answers@,
                        self.keys is None,
                        true,
                    );
                }
                return r;
            },
        };
        let ghost seen = *self;
        let key = match self.challenge_key(&cmd) {
            Ok(key) => key,
            Err(e) => {
                proof {
                    Self::lemma_acted(*old(self), seen, *self);
                    model::lemma_handler_events(
                        old(self).handler.history(),
                        model::act(seen@, cmd@, self.answers@, Seq::empty())->0.asked,
                        self.answers@,
                        old(self).keys is None,
                        true,
                    );
                }
                return Err(e);
            },
        };
        let material = match key {
            None => None,
            Some((selection, scbk)) => {
                let drawn = self.handler.secure_channel_random();
                self.answers = Ghost(
                    Answers {
                        random: match drawn {
                            Some(b) => Ok(b@),
                            None => Err(no_random()),
                        },
                        ..self.answers@
                    },
                );
                match drawn {
                    Some(rnd_b) => Some(ChallengeMaterial { selection, scbk, rnd_b }),
                    None => {
                        proof {
                            Self::lemma_acted(*old(self), seen, *self);
                            assert(self.polled(*old(self)) == model::act(
                                seen@,
                                cmd@,
                                self.answers@,
                                Seq::empty(),
                            ));
                            model::lemma_handler_events(
                                old(self).handler.history(),
                                Asked { key: Some(selection), random: true, command: None },
                                self.answers@,
                                old(self).keys is None,
                                true,
                            );
                        }
                        return Err(
                            Error::MalformedPayload {
                                code: 0x76,
                                reason: "secure-channel random unavailable",
                            },
                        );
                    },
                }
            },
        };
        let ghost ready = *self;
        let r = self.answer(&cmd, material);
        proof {
            Self::lemma_acted(*old(self), seen, *self);
            model::lemma_answer_asks(
                seen@,
                cmd@,
                steps::materials_view(material),
                self.answers@,
                self.io_since(ready),
            );
            model::lemma_handler_events(
                old(self).handler.history(),
                model::act(seen@, cmd@, self.answers@, self.io_since(seen))->0.asked,
                self.answers@,
                old(self).keys is None,
                true,
            );
        }
        r
    }

    /// Same as [`Self::poll_once`], with the random challenge of a handshake drawn from
    /// `rng`.
    pub fn poll_once_with_rng<R: SecureRandom>(&mut self, rng: &mut R) -> (r: Result<bool, Error>)
        ensures
            final(self).follows(*old(self)),
            final(self).polled(*old(self)) is Some,
            ({
                let p = final(self).polled(*old(self))->0;
                &&& p.outcome == r
                &&& p.pd == final(self)@
                &&& p.rest == Seq::<IoEvent>::empty()
                &&& final(self).consulted(*old(self), p, false)
                &&& match p.asked.key {
                    Some(selection) if old(self).keys is None => exists|
                        h: &mut H,
                        k: Option<[u8; 16]>,
                    |
                        {
                            &&& *h == old(self).handler
                            &&& state::array_view(k) == final(self).answers@.key
                            &&& #[trigger] call_ensures(H::secure_channel_key, (h, selection), k)
                            &&& *final(h) == final(self).handler
                        },
                    Some(_) => final(self).handler == old(self).handler,
                    None => match p.asked.command {
                        Some(command) => exists|h: &mut H, c: &Command, reply: Reply|
                            {
                                &&& *h == old(self).handler
                                &&& *final(h) == final(self).handler
                                &&& c@ == command
                                &&& reply@ == final(self).answers@.reply
                                &&& #[trigger] call_ensures(H::on_command, (h, c), reply)
                            },
                        None => final(self).handler == old(self).handler,
                    },
                }
                &&& r is Ok && p.asked.command is Some ==> model::reply_opens(
                    steps::open_command(
                        old(self)@.secure,
                        model::first_command(old(self)@, final(self).io_since(*old(self))),
                    ).1,
                    final(self)@.last_reply,
                    final(self)@.secure,
                    final(self).answers@.reply,
                )
                &&& final(rng).draws() == if p.asked.random {
                    old(rng).draws().push(final(self).answers@.random)
                } else {
                    old(rng).draws()
                }
            }),
    {
        let cmd = match self.fresh_command() {
            Ok(cmd) => cmd,
            Err(r) => {
                proof {
                    model::lemma_handler_events(
                        self.handler.history(),
                        Asked::nothing(),
                        self.answers@,
                        self.keys is None,
                        false,
                    );
                }
                return r;
            },
        };
        let ghost seen = *self;
        let key = match self.challenge_key(&cmd) {
            Ok(key) => key,
            Err(e) => {
                proof {
                    Self::lemma_acted(*old(self), seen, *self);
                    model::lemma_handler_events(
                        old(self).handler.history(),
                        model::act(seen@, cmd@, self.answers@, Seq::empty())->0.asked,
                        self.answers@,
                        old(self).keys is None,
                        false,
                    );
                }
                return Err(e);
            },
        };
        let material = match key {
            None => None,
            Some((selection, scbk)) => {
                let mut rnd_b: [u8; 8] = [0u8; 8];
                let drawn = rng.fill_secure_random(&mut rnd_b);
                self.answers = Ghost(
                    Answers {
                        random: match drawn {
                            Ok(_) => Ok(rnd_b@),
                            Err(e) => Err(e),
                        },
                        ..self.answers@
                    },
                );
                if let Err(e) = drawn {
                    proof {
                        Self::lemma_acted(*old(self), seen, *self);
                        assert(self.polled(*old(self)) == model::act(
                            seen@,
                            cmd@,
                            self.answers@,
                            Seq::empty(),
                        ));
                        model::lemma_handler_events(
                            old(self).handler.history(),
                            Asked { key: Some(selection), random: true, command: None },
                            self.answers@,
                            old(self).keys is None,
                            false,
                        );
                    }
                    return Err(e);
                }
                Some(ChallengeMaterial { selection, scbk, rnd_b })
            },
        };
        let ghost ready = *self;
        let r = self.answer(&cmd, material);
        proof {
            Self::lemma_acted(*old(self), seen, *self);
            model::lemma_answer_asks(
                seen@,
                cmd@,
                steps::materials_view(material),
                self.answers@,
                self.io_since(ready),
            );
            model::lemma_handler_events(
                old(self).handler.history(),
                model::act(seen@, cmd@, self.answers@, self.io_since(seen))->0.asked,
                self.answers@,
                old(self).keys is None,
                false,
            );
        }
        r
    }
}

} // verus!
