//! How the ACU driver's loops come to what the model says.

use vstd::prelude::*;

use crate::bytes;
use crate::command::CommandView;
use crate::driver::acu::model::{self, ExchangeView, Heard, Limits, Ran};
use crate::driver::acu::state::{self, AcuSecureKeyMaterial, AcuSecureView, PdStateView};
use crate::driver::acu::steps::{self, ReplyFrame};
use crate::driver::feed::{self, Feed};
use crate::error::Error;
use crate::packet::codec;
use crate::packet::control::Sqn;
use crate::packet::scb::ScsType;
use crate::reply::ReplyView;
use crate::secure::session;
use crate::transport::IoEvent;
use crate::SOM;

verus! {

/// A frame that scanning finds is a well-formed one.
pub proof fn lemma_scanned_is_well_formed(rx: Seq<u8>)
    ensures
        model::scan_reply(rx).0 matches Ok(Some(f)) ==> f.well_formed(),
    decreases rx.len(),
{
    let at = bytes::first_index(rx, SOM) as int;
    let buf = rx.skip(at);
    bytes::lemma_first_index(rx, SOM);
    if at < rx.len() {
        match codec::parse_frame(buf) {
            Ok(_) => {
                codec::law_parse_is_local(buf);
            },
            Err(_) => {
                lemma_scanned_is_well_formed(buf.skip(1));
            },
        }
    }
}

/// Events behind those that listening uses are left alone.
pub proof fn lemma_listen_extends(
    rx: Seq<u8>,
    start: u64,
    empty: nat,
    reads: nat,
    delay: u32,
    used: Feed,
    rest: Feed,
)
    requires
        model::listen(rx, start, empty, reads, delay, used) is Some,
    ensures
        ({
            let h = model::listen(rx, start, empty, reads, delay, used)->0;
            model::listen(rx, start, empty, reads, delay, used.followed_by(rest)) == Some(
                Heard { rest: h.rest.followed_by(rest), ..h },
            )
        }),
    decreases used.io.len(),
{
    let all = used.followed_by(rest);
    assert(all.io[0] == used.io[0]);
    assert(all.after_io() =~= used.after_io().followed_by(rest));
    if let IoEvent::Read(Ok(more)) = used.io[0] {
        let (found, rx1) = model::scan_reply(rx + more);
        if found == Ok::<Option<ReplyFrame>, Error>(None) {
            assert(all.clock[0] == used.clock[0]);
            assert(all.after_io().after_clock() =~= used.after_io().after_clock().followed_by(
                rest,
            ));
            let empty1 = model::empty_reads(empty, more);
            if !model::time_is_up(used.clock[0], start, delay, empty1, reads + 1) {
                lemma_listen_extends(
                    rx1,
                    start,
                    empty1,
                    reads + 1,
                    delay,
                    used.after_io().after_clock(),
                    rest,
                );
            }
        }
    }
}

/// Events behind those that listening uses are left alone.
pub proof fn lemma_hear_extends(rx: Seq<u8>, delay: u32, used: Feed, rest: Feed)
    requires
        model::hear(rx, delay, used) is Some,
    ensures
        ({
            let h = model::hear(rx, delay, used)->0;
            model::hear(rx, delay, used.followed_by(rest)) == Some(
                Heard { rest: h.rest.followed_by(rest), ..h },
            )
        }),
{
    let all = used.followed_by(rest);
    assert(all.clock[0] == used.clock[0]);
    assert(all.after_clock() =~= used.after_clock().followed_by(rest));
    let (found, rx1) = model::scan_reply(rx);
    if found == Ok::<Option<ReplyFrame>, Error>(None) {
        lemma_listen_extends(rx1, used.clock[0], 0, 0, delay, used.after_clock(), rest);
    }
}

/// Listening that began with `rx` has, after the events `done` and `reads` reads, come to
/// where `cur` holds nothing complete and the last `empty` reads have brought nothing.
pub open spec fn listening(
    rx: Seq<u8>,
    start: u64,
    delay: u32,
    done: Feed,
    cur: Seq<u8>,
    empty: nat,
    reads: nat,
) -> bool {
    forall|rest: Feed|
        model::listen(rx, start, 0, 0, delay, #[trigger] done.followed_by(rest))
            == model::listen(cur, start, empty, reads, delay, rest)
}

/// Listening begins.
pub proof fn lemma_listening_begins(rx: Seq<u8>, start: u64, delay: u32)
    ensures
        listening(rx, start, delay, Feed::nothing(), rx, 0, 0),
{
    assert forall|rest: Feed| #[trigger] Feed::nothing().followed_by(rest) == rest by {
        feed::lemma_followed_by(rest, rest, rest);
    }
}

/// Listening ends by a read that fails, or that completes something.
pub proof fn lemma_listening_ends(
    rx: Seq<u8>,
    start: u64,
    delay: u32,
    done: Feed,
    cur: Seq<u8>,
    empty: nat,
    reads: nat,
    read: Result<Seq<u8>, Error>,
)
    requires
        listening(rx, start, delay, done, cur, empty, reads),
    ensures
        ({
            let heard = model::listen(
                rx,
                start,
                0,
                0,
                delay,
                done.followed_by(feed::one_io(IoEvent::Read(read))),
            );
            let rest = Feed::nothing();
            match read {
                Err(e) => heard == Some(Heard { outcome: Err(e), rx: cur, rest }),
                Ok(more) => {
                    let (found, rx) = model::scan_reply(cur + more);
                    match found {
                        Err(e) => heard == Some(Heard { outcome: Err(e), rx, rest }),
                        Ok(Some(f)) => heard == Some(Heard { outcome: Ok(f), rx, rest }),
                        Ok(None) => true,
                    }
                },
            }
        }),
{
    let event = IoEvent::Read(read);
    feed::lemma_followed_by(feed::one_io(event), done, done);
    feed::lemma_first(event, 0, Feed::nothing());
    assert(done.followed_by(feed::one_io(event)) == done.followed_by(
        feed::one_io(event).followed_by(Feed::nothing()),
    ));
}

/// Listening after a read that leaves nothing complete and a look at the clock: it goes on,
/// or the time is up.
pub proof fn lemma_listening_goes_on(
    rx: Seq<u8>,
    start: u64,
    delay: u32,
    done: Feed,
    cur: Seq<u8>,
    empty: nat,
    reads: nat,
    more: Seq<u8>,
    now: u64,
)
    requires
        listening(rx, start, delay, done, cur, empty, reads),
        model::scan_reply(cur + more).0 == Ok::<Option<ReplyFrame>, Error>(None),
    ensures
        ({
            let step = feed::one_io(IoEvent::Read(Ok(more))).followed_by(feed::one_reading(now));
            let empty = model::empty_reads(empty, more);
            let cur = model::scan_reply(cur + more).1;
            if model::time_is_up(now, start, delay, empty, reads + 1) {
                model::listen(rx, start, 0, 0, delay, done.followed_by(step)) == Some(
                    Heard { outcome: Err(Error::Timeout), rx: cur, rest: Feed::nothing() },
                )
            } else {
                listening(rx, start, delay, done.followed_by(step), cur, empty, reads + 1)
            }
        }),
{
    let event = IoEvent::Read(Ok(more));
    let step = feed::one_io(event).followed_by(feed::one_reading(now));
    let empty1 = model::empty_reads(empty, more);
    let cur1 = model::scan_reply(cur + more).1;
    assert forall|rest: Feed|
        {
            let f = #[trigger] step.followed_by(rest);
            &&& f.io.len() > 0
            &&& f.io[0] == event
            &&& f.clock.len() > 0
            &&& f.clock[0] == now
            &&& f.after_io().after_clock() == rest
        } by {
        assert(step.followed_by(rest).after_io().after_clock() =~= rest);
    }
    if model::time_is_up(now, start, delay, empty1, reads + 1) {
        feed::lemma_followed_by(step, done, done);
        assert(step.followed_by(Feed::nothing()).io[0] == event);
        assert(done.followed_by(step) == done.followed_by(step.followed_by(Feed::nothing())));
    } else {
        assert forall|rest: Feed|
            model::listen(
                rx,
                start,
                0,
                0,
                delay,
                #[trigger] done.followed_by(step).followed_by(rest),
            ) == model::listen(cur1, start, empty1, reads + 1, delay, rest) by {
            feed::lemma_followed_by(done, step, rest);
            assert(step.followed_by(rest).io[0] == event);
        }
    }
}

/// Events behind those that sending uses are left alone.
pub proof fn lemma_send_extends(
    frame: Result<Seq<u8>, Error>,
    pd: PdStateView,
    rx: Seq<u8>,
    used: Feed,
    rest: Feed,
)
    requires
        model::send(frame, pd, rx, used) is Some,
    ensures
        ({
            let sent = model::send(frame, pd, rx, used)->0;
            model::send(frame, pd, rx, used.followed_by(rest)) == Some(
                Ran { rest: sent.rest.followed_by(rest), ..sent },
            )
        }),
{
    if frame is Ok {
        assert(used.followed_by(rest).io[0] == used.io[0]);
        assert(used.followed_by(rest).after_io() =~= used.after_io().followed_by(rest));
    }
}

/// Events behind those that the challenge uses are left alone.
pub proof fn lemma_request_challenge_extends(
    addr: u8,
    pd: PdStateView,
    granted: Option<AcuSecureKeyMaterial>,
    draw: Result<Seq<u8>, Error>,
    rx: Seq<u8>,
    used: Feed,
    rest: Feed,
)
    requires
        model::request_challenge(addr, pd, granted, draw, rx, used) is Some,
    ensures
        ({
            let sent = model::request_challenge(addr, pd, granted, draw, rx, used)->0;
            model::request_challenge(addr, pd, granted, draw, rx, used.followed_by(rest)) == Some(
                Ran { rest: sent.rest.followed_by(rest), ..sent },
            )
        }),
{
    if granted is Some && draw is Ok {
        lemma_send_extends(
            steps::handshake_request(
                addr,
                pd.use_crc,
                pd.next_sqn,
                ScsType::Scs11,
                granted->0.selection,
                CommandView::Chlng { rnd_a: draw->Ok_0 },
            ),
            pd,
            rx,
            used,
            rest,
        );
    }
}

/// Events behind those that the PD's cryptogram uses are left alone.
pub proof fn lemma_receive_ccrypt_extends(
    pd: PdStateView,
    rx: Seq<u8>,
    delay: u32,
    used: Feed,
    rest: Feed,
)
    requires
        model::receive_ccrypt(pd, rx, delay, used) is Some,
    ensures
        ({
            let got = model::receive_ccrypt(pd, rx, delay, used)->0;
            model::receive_ccrypt(pd, rx, delay, used.followed_by(rest)) == Some(
                Ran { rest: got.rest.followed_by(rest), ..got },
            )
        }),
{
    lemma_hear_extends(rx, delay, used, rest);
    let h = model::hear(rx, delay, used)->0;
    if h.rest.clock.len() > 0 {
        assert(h.rest.followed_by(rest).clock[0] == h.rest.clock[0]);
        assert(h.rest.followed_by(rest).after_clock() =~= h.rest.after_clock().followed_by(rest));
    }
}

/// Events behind those that SCS_13 uses are left alone.
pub proof fn lemma_send_scrypt_extends(
    addr: u8,
    pd: PdStateView,
    rx: Seq<u8>,
    used: Feed,
    rest: Feed,
)
    requires
        model::send_scrypt(addr, pd, rx, used) is Some,
    ensures
        ({
            let sent = model::send_scrypt(addr, pd, rx, used)->0;
            model::send_scrypt(addr, pd, rx, used.followed_by(rest)) == Some(
                Ran { rest: sent.rest.followed_by(rest), ..sent },
            )
        }),
{
    if let Some(AcuSecureView::Cryptogrammed { session, key }) = pd.secure {
        lemma_send_extends(
            steps::handshake_request(
                addr,
                pd.use_crc,
                pd.next_sqn,
                ScsType::Scs13,
                key,
                CommandView::SCrypt {
                    server_cryptogram: session::server_cryptogram(
                        session::derive_keys(session.scbk, session.rnd_a),
                        session.rnd_a,
                        session.rnd_b,
                    ),
                },
            ),
            pd,
            rx,
            used,
            rest,
        );
    }
}

/// Events behind those that an attempt uses are left alone.
pub proof fn lemma_try_once_extends(
    frame: Seq<u8>,
    sqn: Sqn,
    pd: PdStateView,
    rx: Seq<u8>,
    delay: u32,
    used: Feed,
    rest: Feed,
)
    requires
        model::try_once(frame, sqn, pd, rx, delay, used) is Some,
    ensures
        ({
            let got = model::try_once(frame, sqn, pd, rx, delay, used)->0;
            model::try_once(frame, sqn, pd, rx, delay, used.followed_by(rest)) == Some(
                Ran { rest: got.rest.followed_by(rest), ..got },
            )
        }),
{
    reveal(model::try_once);
    assert(used.followed_by(rest).io[0] == used.io[0]);
    assert(used.followed_by(rest).after_io() =~= used.after_io().followed_by(rest));
    if model::receive_one(pd, sqn, rx, delay, used.after_io()) is Some {
        lemma_hear_extends(rx, delay, used.after_io(), rest);
    }
}

/// An exchange that began with these arguments has, after the events `done`, come to
/// where `failed` attempts have gone unanswered.
#[verifier::opaque]
pub open spec fn trying(
    frame: Seq<u8>,
    secured: bool,
    sqn: Sqn,
    started: u64,
    first: (PdStateView, Seq<u8>),
    limits: Limits,
    done: Feed,
    failed: nat,
    pd: PdStateView,
    rx: Seq<u8>,
) -> bool {
    forall|rest: Feed|
        model::attempt(
            frame,
            secured,
            sqn,
            started,
            0,
            first.0,
            first.1,
            limits,
            #[trigger] done.followed_by(rest),
        ) == model::attempt(frame, secured, sqn, started, failed, pd, rx, limits, rest)
}

/// The attempts begin.
pub proof fn lemma_trying_begins(
    frame: Seq<u8>,
    secured: bool,
    sqn: Sqn,
    started: u64,
    first: (PdStateView, Seq<u8>),
    limits: Limits,
)
    ensures
        trying(
            frame,
            secured,
            sqn,
            started,
            first,
            limits,
            Feed::nothing(),
            0,
            first.0,
            first.1,
        ),
{
    reveal(trying);
    assert forall|rest: Feed| #[trigger] Feed::nothing().followed_by(rest) == rest by {
        feed::lemma_followed_by(rest, rest, rest);
    }
}

/// An attempt that failed ends the exchange; after any other, the verdict decides.
pub proof fn lemma_trying_goes_on(
    frame: Seq<u8>,
    secured: bool,
    sqn: Sqn,
    started: u64,
    first: (PdStateView, Seq<u8>),
    limits: Limits,
    done: Feed,
    failed: nat,
    pd: PdStateView,
    rx: Seq<u8>,
    used: Feed,
    got: Ran<Option<ReplyView>>,
    now: u64,
)
    requires
        trying(frame, secured, sqn, started, first, limits, done, failed, pd, rx),
        model::try_once(frame, sqn, pd, rx, limits.reply_delay_ms, used) == Some(got),
        got.rest == Feed::nothing(),
    ensures
        ({
            let timed = used.followed_by(feed::one_reading(now));
            match got.outcome {
                Err(e) => model::attempt(
                    frame,
                    secured,
                    sqn,
                    started,
                    0,
                    first.0,
                    first.1,
                    limits,
                    done.followed_by(used),
                ) == Some(
                    Ran::<ExchangeView> {
                        outcome: Err(e),
                        pd: got.pd,
                        rx: got.rx,
                        rest: Feed::nothing(),
                    },
                ),
                Ok(answer) => match model::verdict(
                    answer,
                    got.pd,
                    secured,
                    failed,
                    started,
                    limits,
                    now,
                ) {
                    Some((outcome, pd)) => model::attempt(
                        frame,
                        secured,
                        sqn,
                        started,
                        0,
                        first.0,
                        first.1,
                        limits,
                        done.followed_by(timed),
                    ) == Some(Ran { outcome: Ok(outcome), pd, rx: got.rx, rest: Feed::nothing() }),
                    None => trying(
                        frame,
                        secured,
                        sqn,
                        started,
                        first,
                        limits,
                        done.followed_by(timed),
                        failed + 1,
                        got.pd,
                        got.rx,
                    ),
                },
            }
        }),
{
    reveal(trying);
    let read = feed::one_reading(now);
    let timed = used.followed_by(read);
    if got.outcome is Ok {
        let answer = got.outcome->Ok_0;
        assert forall|rest: Feed|
            model::attempt(
                frame,
                secured,
                sqn,
                started,
                0,
                first.0,
                first.1,
                limits,
                #[trigger] done.followed_by(timed).followed_by(rest),
            ) == match model::verdict(answer, got.pd, secured, failed, started, limits, now) {
                Some((outcome, pd)) => Some(Ran { outcome: Ok(outcome), pd, rx: got.rx, rest }),
                None => model::attempt(
                    frame,
                    secured,
                    sqn,
                    started,
                    failed + 1,
                    got.pd,
                    got.rx,
                    limits,
                    rest,
                ),
            } by {
            let tail = read.followed_by(rest);
            feed::lemma_followed_by(done, timed, rest);
            feed::lemma_followed_by(used, read, rest);
            lemma_try_once_extends(frame, sqn, pd, rx, limits.reply_delay_ms, used, tail);
            feed::lemma_followed_by(tail, tail, tail);
            feed::lemma_first(IoEvent::Read(Err(Error::Io)), now, rest);
        }
        feed::lemma_followed_by(done.followed_by(timed), timed, timed);
        assert(done.followed_by(timed).followed_by(Feed::nothing()) == done.followed_by(timed));
    }
}

} // verus!
