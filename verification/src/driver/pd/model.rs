//! What the PD driver does, as a function of what its surroundings answer.

use vstd::prelude::*;

use crate::bytes;
use crate::command;
use crate::command::{CommandCode, CommandView};
use crate::driver::pd::state::{HandlerEvent, PdSecureKey, PdSecureView};
use crate::driver::pd::steps::{self, CommandFrame};
use crate::error::Error;
use crate::packet::codec;
use crate::packet::control::{Sqn, BROADCAST_ADDR};
use crate::reply::ReplyView;
use crate::secure::frame;
use crate::transport::IoEvent;
use crate::SOM;

verus! {

/// What a PD driver knows.
#[verifier::ext_equal]
pub struct PdView {
    /// Bus address.
    pub address: u8,
    /// Whether replies have CRC trailers.
    pub use_crc: bool,
    /// Bytes received and not consumed.
    pub rx: Seq<u8>,
    /// Number of the last command that was acted upon.
    pub last_sqn: Option<Sqn>,
    /// Reply to it.
    pub last_reply: Option<Seq<u8>>,
    /// Client identifier, if the secure channel is enabled.
    pub config: Option<Seq<u8>>,
    /// Progress of the secure channel.
    pub secure: Option<PdSecureView>,
}

/// What the application answers, if it is asked.
#[verifier::ext_equal]
pub struct Answers {
    /// The key that the ACU selected.
    pub key: Option<Seq<u8>>,
    /// A random challenge.
    pub random: Result<Seq<u8>, Error>,
    /// The reply to the command.
    pub reply: ReplyView,
}

/// What the application is asked.
#[verifier::ext_equal]
pub struct Asked {
    /// For a key.
    pub key: Option<PdSecureKey>,
    /// For a random challenge.
    pub random: bool,
    /// For a reply.
    pub command: Option<CommandView>,
}

/// How a poll ends.
#[verifier::ext_equal]
pub struct Polled {
    /// What is returned.
    pub outcome: Result<bool, Error>,
    /// What the driver then knows.
    pub pd: PdView,
    /// What the application was asked.
    pub asked: Asked,
    /// Transport operations that are left.
    pub rest: Seq<IoEvent>,
}

impl Asked {
    /// The application was left alone.
    pub open spec fn nothing() -> Asked {
        Asked { key: None, random: false, command: None }
    }
}

/// The first command for this address in `rx`, with what is left of `rx`. Bytes before a
/// start byte are noise, and frames for other addresses are skipped.
pub open spec fn scan_command(address: u8, rx: Seq<u8>) -> (
    Result<Option<CommandFrame>, Error>,
    Seq<u8>,
)
    decreases rx.len(),
    via scan_command_decreases
{
    let at = bytes::first_index(rx, SOM) as int;
    let buf = rx.skip(at);
    if at >= rx.len() {
        (Ok(None), rx)
    } else {
        match codec::parse_frame(buf) {
            Ok((p, used)) => if p.addr.spec_pd_addr() != address && p.addr.spec_pd_addr()
                != BROADCAST_ADDR {
                scan_command(address, buf.skip(used))
            } else {
                match CommandCode::spec_from_byte(p.code) {
                    Err(e) => (Err(e), buf),
                    Ok(code) => (
                        Ok(
                            Some(
                                CommandFrame {
                                    code,
                                    sqn: p.ctrl.sqn,
                                    scb: p.scb,
                                    data: p.data,
                                    raw: buf.take(used),
                                },
                            ),
                        ),
                        buf.skip(used),
                    ),
                }
            },
            Err(Error::Truncated { .. }) => (Ok(None), buf),
            Err(Error::BadSom(_)) => scan_command(address, buf.skip(1)),
            Err(e) => (Err(e), buf),
        }
    }
}

#[via_fn]
proof fn scan_command_decreases(address: u8, rx: Seq<u8>) {
    bytes::lemma_first_index(rx, SOM);
    let buf = rx.skip(bytes::first_index(rx, SOM) as int);
    if codec::parse_frame(buf) is Ok {
        codec::law_parse_is_local(buf);
    }
}

/// A command that scanning finds is a well-formed one.
pub proof fn lemma_scanned_is_well_formed(address: u8, rx: Seq<u8>)
    ensures
        scan_command(address, rx).0 matches Ok(Some(f)) ==> f.well_formed(),
    decreases rx.len(),
{
    let at = bytes::first_index(rx, SOM) as int;
    let buf = rx.skip(at);
    bytes::lemma_first_index(rx, SOM);
    if at < rx.len() {
        match codec::parse_frame(buf) {
            Ok((p, used)) => {
                codec::law_parse_is_local(buf);
                lemma_scanned_is_well_formed(address, buf.skip(used));
            },
            Err(_) => {
                lemma_scanned_is_well_formed(address, buf.skip(1));
            },
        }
    }
}

/// Send `bytes` as the reply to command `sqn`, and remember it.
pub open spec fn reply_with(
    pd: PdView,
    sqn: Sqn,
    bytes: Seq<u8>,
    asked: Asked,
    io: Seq<IoEvent>,
) -> Option<Polled> {
    if io.len() == 0 {
        None
    } else {
        match io[0] {
            IoEvent::Read(_) => None,
            IoEvent::Write(b, r) => if b != bytes {
                None
            } else {
                match r {
                    Err(e) => Some(Polled { outcome: Err(e), pd, asked, rest: io.drop_first() }),
                    Ok(_) => Some(
                        Polled {
                            outcome: Ok(true),
                            pd: PdView { last_sqn: Some(sqn), last_reply: Some(bytes), ..pd },
                            asked,
                            rest: io.drop_first(),
                        },
                    ),
                }
            },
        }
    }
}

/// The reply to the last command goes out again.
pub open spec fn repeat(pd: PdView, io: Seq<IoEvent>) -> Option<Polled> {
    match pd.last_reply {
        None => Some(Polled { outcome: Ok(true), pd, asked: Asked::nothing(), rest: io }),
        Some(bytes) => match reply_with(pd, pd.last_sqn->0, bytes, Asked::nothing(), io) {
            None => None,
            Some(p) => Some(Polled { pd, ..p }),
        },
    }
}

/// Answer a command that is no part of a handshake. In a secure session nothing that was
/// not authenticated reaches the application.
pub open spec fn dispatch(
    pd: PdView,
    f: CommandFrame,
    asked: Asked,
    answers: Answers,
    io: Seq<IoEvent>,
) -> Option<Polled> {
    let (data, secure) = steps::open_command(pd.secure, f);
    let pd1 = PdView { secure, ..pd };
    match data {
        Err(e) => Some(Polled { outcome: Err(e), pd: pd1, asked, rest: io }),
        Ok(d) => match command::command_decode(f.code, d) {
            Err(e) => Some(Polled { outcome: Err(e), pd: pd1, asked, rest: io }),
            Ok(cmd) => {
                let asked1 = Asked { command: Some(cmd), ..asked };
                let (reply, secure) = steps::secure_reply(
                    pd.address,
                    pd.use_crc,
                    pd1.secure,
                    f.sqn,
                    answers.reply,
                );
                let pd2 = PdView { secure, ..pd };
                match reply {
                    Err(e) => Some(Polled { outcome: Err(e), pd: pd2, asked: asked1, rest: io }),
                    Ok(bytes) => reply_with(pd2, f.sqn, bytes, asked1, io),
                }
            },
        },
    }
}

/// Answer a command. `material` is there where a challenge is taken up.
#[verifier::opaque]
pub open spec fn answer(
    pd: PdView,
    f: CommandFrame,
    material: Option<(PdSecureKey, Seq<u8>, Seq<u8>)>,
    answers: Answers,
    io: Seq<IoEvent>,
) -> Option<Polled> {
    let asked = Asked {
        key: match material {
            Some((key, _, _)) => Some(key),
            None => None,
        },
        random: material is Some,
        command: None,
    };
    let (reply, secure) = steps::handshake(
        pd.address,
        pd.use_crc,
        pd.config,
        pd.secure,
        f,
        material,
    );
    let pd1 = PdView { secure, ..pd };
    match reply {
        Err(e) => Some(Polled { outcome: Err(e), pd: pd1, asked, rest: io }),
        Ok(Some(bytes)) => reply_with(pd1, f.sqn, bytes, asked, io),
        Ok(None) => dispatch(pd1, f, asked, answers, io),
    }
}

/// Take up a challenge for a key that was granted.
pub open spec fn challenged(
    pd: PdView,
    f: CommandFrame,
    key: PdSecureKey,
    scbk: Seq<u8>,
    answers: Answers,
    io: Seq<IoEvent>,
) -> Option<Polled> {
    match answers.random {
        Err(e) => Some(
            Polled {
                outcome: Err(e),
                pd,
                asked: Asked { key: Some(key), random: true, command: None },
                rest: io,
            },
        ),
        Ok(rnd_b) => answer(pd, f, Some((key, scbk, rnd_b)), answers, io),
    }
}

/// Act upon a command. The number of the last one asks for its reply again. A challenge
/// needs a key and a random challenge from the application.
pub open spec fn act(pd: PdView, f: CommandFrame, answers: Answers, io: Seq<IoEvent>) -> Option<
    Polled,
> {
    if pd.last_sqn == Some(f.sqn) {
        repeat(pd, io)
    } else {
        match steps::challenge_asks(pd.config, f) {
            Err(e) => Some(Polled { outcome: Err(e), pd, asked: Asked::nothing(), rest: io }),
            Ok(None) => answer(pd, f, None, answers, io),
            Ok(Some(key)) => match answers.key {
                None => Some(
                    Polled {
                        outcome: Err(
                            Error::MalformedPayload {
                                code: 0x76,
                                reason: "secure-channel key unavailable",
                            },
                        ),
                        pd,
                        asked: Asked { key: Some(key), random: false, command: None },
                        rest: io,
                    },
                ),
                Some(scbk) => challenged(pd, f, key, scbk, answers, io),
            },
        }
    }
}

/// Most reads of one poll. The count only shows that a poll comes to an end: no line
/// delivers so much without a pause.
pub const MAX_DRAIN_READS: u64 = 0xffff_ffff_ffff_ffff;

/// How draining the transport ends.
#[verifier::ext_equal]
pub struct Drained {
    /// The command that was found, if there is one.
    pub outcome: Result<Option<CommandFrame>, Error>,
    /// Bytes received and not consumed.
    pub rx: Seq<u8>,
    /// Transport operations that are left.
    pub rest: Seq<IoEvent>,
}

/// Draining goes on after a read, the `reads`th, that brought `more`: there was something to
/// read, and no command is complete yet.
pub open spec fn drains_on(
    found: Result<Option<CommandFrame>, Error>,
    more: Seq<u8>,
    reads: nat,
) -> bool {
    &&& found == Ok::<Option<CommandFrame>, Error>(None)
    &&& more.len() > 0
    &&& reads < MAX_DRAIN_READS
}

/// Read, after `reads` reads, until a command for this address is complete or nothing more
/// comes. `None` where `io` is not what the driver would have done.
pub open spec fn drain(address: u8, rx: Seq<u8>, reads: nat, io: Seq<IoEvent>) -> Option<Drained>
    decreases io.len(),
{
    if io.len() == 0 {
        None
    } else {
        let rest = io.drop_first();
        match io[0] {
            IoEvent::Write(_, _) => None,
            IoEvent::Read(Err(e)) => Some(Drained { outcome: Err(e), rx, rest }),
            IoEvent::Read(Ok(more)) => {
                let (found, rx) = scan_command(address, rx + more);
                if drains_on(found, more, reads + 1) {
                    drain(address, rx, reads + 1, rest)
                } else {
                    Some(Drained { outcome: found, rx, rest })
                }
            },
        }
    }
}

/// Drain the transport, and act upon the first command that is complete. `None` where `io`
/// is not what the driver would have done.
#[verifier::opaque]
pub open spec fn poll(pd: PdView, answers: Answers, io: Seq<IoEvent>) -> Option<Polled> {
    match drain(pd.address, pd.rx, 0, io) {
        None => None,
        Some(d) => {
            let pd = PdView { rx: d.rx, ..pd };
            match d.outcome {
                Err(e) => Some(
                    Polled { outcome: Err(e), pd, asked: Asked::nothing(), rest: d.rest },
                ),
                Ok(None) => Some(
                    Polled { outcome: Ok(false), pd, asked: Asked::nothing(), rest: d.rest },
                ),
                Ok(Some(f)) => act(pd, f, answers, d.rest),
            }
        },
    }
}

/// The command that a poll acts upon.
pub open spec fn first_command(pd: PdView, io: Seq<IoEvent>) -> CommandFrame {
    drain(pd.address, pd.rx, 0, io)->0.outcome->Ok_0->0
}

/// Operations behind those that draining uses are left alone.
pub proof fn lemma_drain_extends(
    address: u8,
    rx: Seq<u8>,
    reads: nat,
    used: Seq<IoEvent>,
    rest: Seq<IoEvent>,
)
    requires
        drain(address, rx, reads, used) is Some,
    ensures
        ({
            let d = drain(address, rx, reads, used)->0;
            drain(address, rx, reads, used + rest) == Some(Drained { rest: d.rest + rest, ..d })
        }),
    decreases used.len(),
{
    assert((used + rest)[0] == used[0]);
    assert((used + rest).drop_first() =~= used.drop_first() + rest);
    if let IoEvent::Read(Ok(more)) = used[0] {
        let (found, rx1) = scan_command(address, rx + more);
        if drains_on(found, more, reads + 1) {
            lemma_drain_extends(address, rx1, reads + 1, used.drop_first(), rest);
        }
    }
}

/// Draining that began with `rx` has, after the operations `done` and `reads` reads, come to
/// where `cur` holds no complete command.
pub open spec fn draining(
    address: u8,
    rx: Seq<u8>,
    done: Seq<IoEvent>,
    cur: Seq<u8>,
    reads: nat,
) -> bool {
    forall|rest: Seq<IoEvent>|
        drain(address, rx, 0, #[trigger] (done + rest)) == drain(address, cur, reads, rest)
}

/// Draining after one more read: it ends, or goes on.
pub proof fn lemma_draining_reads(
    address: u8,
    rx: Seq<u8>,
    done: Seq<IoEvent>,
    cur: Seq<u8>,
    reads: nat,
    read: Result<Seq<u8>, Error>,
)
    requires
        draining(address, rx, done, cur, reads),
    ensures
        ({
            let now = done.push(IoEvent::Read(read));
            let rest = Seq::<IoEvent>::empty();
            match read {
                Err(e) => drain(address, rx, 0, now) == Some(
                    Drained { outcome: Err(e), rx: cur, rest },
                ),
                Ok(more) => {
                    let (found, cur) = scan_command(address, cur + more);
                    if drains_on(found, more, reads + 1) {
                        draining(address, rx, now, cur, reads + 1)
                    } else {
                        drain(address, rx, 0, now) == Some(
                            Drained { outcome: found, rx: cur, rest },
                        )
                    }
                },
            }
        }),
{
    let event = IoEvent::Read(read);
    let now = done.push(event);
    assert forall|rest: Seq<IoEvent>|
        drain(address, rx, 0, #[trigger] (now + rest)) == drain(
            address,
            cur,
            reads,
            seq![event] + rest,
        ) by {
        assert(now + rest =~= done + (seq![event] + rest));
    }
    assert forall|rest: Seq<IoEvent>|
        {
            let io = #[trigger] (seq![event] + rest);
            io.len() > 0 && io[0] == event && io.drop_first() == rest
        } by {
        assert((seq![event] + rest).drop_first() =~= rest);
    }
    let rest = Seq::<IoEvent>::empty();
    assert(now + rest =~= now);
    assert((seq![event] + rest)[0] == event);
    if let Ok(more) = read {
        let (found, cur1) = scan_command(address, cur + more);
        if drains_on(found, more, reads + 1) {
            assert forall|rest: Seq<IoEvent>|
                drain(address, rx, 0, #[trigger] (now + rest)) == drain(
                    address,
                    cur1,
                    reads + 1,
                    rest,
                ) by {
                assert((seq![event] + rest)[0] == event);
            }
        }
    }
}

/// The reply of a PD in a secure session opens, at an ACU in step with the session, to the
/// DATA of the application's reply. `opened` is where the command left the session, `after`
/// where the reply left it.
pub open spec fn reply_opens(
    opened: Option<PdSecureView>,
    reply: Option<Seq<u8>>,
    after: Option<PdSecureView>,
    answer: ReplyView,
) -> bool {
    opened matches Some(PdSecureView::Secure(t)) ==> {
        &&& after matches Some(PdSecureView::Secure(u))
        &&& reply is Some
        &&& frame::opens_to(t, reply->0, u, answer.data())
    }
}

/// What the handler did: it supplied a key where there is no key provider, a random
/// challenge where there is no random source, and the reply.
#[verifier::opaque]
pub open spec fn handler_events(
    asked: Asked,
    answers: Answers,
    own_keys: bool,
    own_random: bool,
) -> Seq<HandlerEvent> {
    let key = match (asked.key, answers.key) {
        (Some(selection), Some(k)) => if own_keys {
            seq![HandlerEvent::Key(selection, k)]
        } else {
            Seq::empty()
        },
        _ => Seq::empty(),
    };
    let random = if asked.random && own_random && answers.random is Ok {
        seq![HandlerEvent::Random(answers.random->Ok_0)]
    } else {
        Seq::empty()
    };
    let command = match asked.command {
        Some(cmd) => seq![HandlerEvent::Replied(cmd, answers.reply)],
        None => Seq::empty(),
    };
    key + random + command
}

/// What the handler did, one event after the other.
pub proof fn lemma_handler_events(
    before: Seq<HandlerEvent>,
    asked: Asked,
    answers: Answers,
    own_keys: bool,
    own_random: bool,
)
    ensures
        ({
            let keyed = match (asked.key, answers.key) {
                (Some(selection), Some(k)) => if own_keys {
                    before.push(HandlerEvent::Key(selection, k))
                } else {
                    before
                },
                _ => before,
            };
            let drawn = if asked.random && own_random && answers.random is Ok {
                keyed.push(HandlerEvent::Random(answers.random->Ok_0))
            } else {
                keyed
            };
            before + handler_events(asked, answers, own_keys, own_random) == match asked.command {
                Some(cmd) => drawn.push(HandlerEvent::Replied(cmd, answers.reply)),
                None => drawn,
            }
        }),
{
    reveal(handler_events);
    let keyed = match (asked.key, answers.key) {
        (Some(selection), Some(k)) => if own_keys {
            before.push(HandlerEvent::Key(selection, k))
        } else {
            before
        },
        _ => before,
    };
    let drawn = if asked.random && own_random && answers.random is Ok {
        keyed.push(HandlerEvent::Random(answers.random->Ok_0))
    } else {
        keyed
    };
    let all = match asked.command {
        Some(cmd) => drawn.push(HandlerEvent::Replied(cmd, answers.reply)),
        None => drawn,
    };
    assert(before + handler_events(asked, answers, own_keys, own_random) =~= all);
}

/// What answering a command asks besides for a reply.
pub proof fn lemma_answer_asks(
    pd: PdView,
    f: CommandFrame,
    material: Option<(PdSecureKey, Seq<u8>, Seq<u8>)>,
    answers: Answers,
    io: Seq<IoEvent>,
)
    ensures
        answer(pd, f, material, answers, io) matches Some(p) ==> {
            &&& p.asked.random == (material is Some)
            &&& p.asked.key == match material {
                Some((key, _, _)) => Some(key),
                None => None,
            }
            &&& material is Some && pd.config is Some ==> p.asked.command is None
        },
{
    reveal(answer);
}

} // verus!
