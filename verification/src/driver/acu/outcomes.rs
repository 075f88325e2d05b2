//! What the ACU makes of what it hears: results, and what it keeps about the PD.

use vstd::prelude::*;

use crate::bytes;
use crate::clock::Clock;
use crate::command::CommandView;
use crate::driver::acu;
use crate::driver::acu::laws;
use crate::driver::acu::listening;
use crate::driver::acu::model::{self, ExchangeView, Heard, Limits, Ran};
use crate::driver::acu::progress;
use crate::driver::acu::state::{
    self, AcuSecureKeyMaterial, AcuSecureState, AcuSecureView, PdState, PdStateView,
};
use crate::driver::acu::steps::{self, ReplyFrame};
use crate::driver::acu::{Acu, ExchangeOutcome};
use crate::driver::feed::{self, Feed};
use crate::error::{Error, SecureSessionError};
use crate::packet::codec;
use crate::packet::codec::PacketView;
use crate::packet::control::Sqn;
use crate::packet::scb::ScbView;
use crate::reply;
use crate::reply::{Reply, ReplyCode, ReplyView};
use crate::secure::frame;
use crate::secure::session;
use crate::secure::session::SecureView;
use crate::transport::{IoEvent, Transport};

verus! {

/// The bookkeeping is as before, but for the secure-channel state.
pub open spec fn differs_in_secure(pd: PdStateView, after: PdStateView) -> bool {
    &&& after.next_sqn == pd.next_sqn
    &&& after.use_crc == pd.use_crc
    &&& after.last_seen_ms == pd.last_seen_ms
    &&& after.seen == pd.seen
}

/// A reply was taken in at `now`: the PD counts as heard of then, and the next command gets
/// the next number. The trailer stays as it was.
pub open spec fn reply_counted(pd: PdStateView, after: PdStateView, now: u64) -> bool {
    &&& after.next_sqn == pd.next_sqn.spec_next()
    &&& after.use_crc == pd.use_crc
    &&& after.last_seen_ms == now
    &&& after.seen
}

/// Outside a session the DATA of a reply is taken as it stands, and nothing changes. In a
/// session it is taken only from a frame that the PD has secured and that opens under the
/// session; then the session moves on to where opening it has led. Every other reply is
/// refused and ends the session, and nothing else of the bookkeeping changes.
pub proof fn law_reply_is_opened(pd: PdStateView, f: ReplyFrame)
    requires
        f.well_formed(),
    ensures
        ({
            let (data, after) = steps::open_reply(pd, f);
            match pd.secure {
                Some(AcuSecureView::Secure(s)) => {
                    &&& differs_in_secure(pd, after)
                    &&& match data {
                        Ok(d) => {
                            &&& f.scb is Some
                            &&& f.scb->0.ty is Scs16 || f.scb->0.ty is Scs18
                            &&& after.secure matches Some(AcuSecureView::Secure(t))
                                && frame::opens_to(s, f.raw, t, d)
                        },
                        Err(e) => {
                            &&& f.scb is None ==> e == Error::SecureSession(
                                SecureSessionError::NotSecure,
                            )
                            &&& f.scb matches Some(scb) ==> if scb.ty is Scs16 || scb.ty is Scs18 {
                                frame::unseal_frame(
                                    s,
                                    codec::parse_frame(f.raw)->Ok_0.0,
                                    f.raw,
                                ) == Err::<(SecureView, Seq<u8>), Error>(e)
                            } else {
                                e == Error::BadSecurityBlock(scb.ty.spec_byte())
                            }
                            &&& after.secure is None
                            &&& forall|t: SecureView, d: Seq<u8>|
                                #[trigger] frame::opens_to(s, f.raw, t, d) ==> !(f.scb->0.ty is Scs16
                                    || f.scb->0.ty is Scs18)
                        },
                    }
                },
                _ => data == Ok::<Seq<u8>, Error>(f.data) && after == pd,
            }
        }),
{
}

/// Waiting for a reply that does not come, or fails to come, changes nothing about the PD,
/// and the error is handed on. A reply that comes is decoded from its code and its DATA, in
/// the clear or opened under the session. It counts whether it can be decoded or not; one
/// that does not open under the session does not.
pub proof fn law_receive_accounts(
    pd: PdStateView,
    rx: Seq<u8>,
    delay: u32,
    feed: Feed,
    h: Heard,
    ran: Ran<ReplyView>,
)
    requires
        model::hear(rx, delay, feed) == Some(h),
        model::receive(pd, rx, delay, feed) == Some(ran),
    ensures
        ran.rx == h.rx,
        ran.rest.io == h.rest.io,
        match h.outcome {
            Err(e) => {
                &&& ran.outcome == Err::<ReplyView, Error>(e)
                &&& ran.pd == pd
                &&& ran.rest.clock == h.rest.clock
            },
            Ok(f) => match pd.secure {
                Some(AcuSecureView::Secure(s)) => {
                    ||| {
                        &&& ran.outcome is Err
                        &&& differs_in_secure(pd, ran.pd)
                        &&& ran.pd.secure is None
                        &&& ran.rest.clock == h.rest.clock
                        &&& forall|t: SecureView, d: Seq<u8>|
                            #[trigger] frame::opens_to(s, f.raw, t, d) ==> !(f.scb->0.ty is Scs16
                                || f.scb->0.ty is Scs18)
                    }
                    ||| {
                        &&& h.rest.clock.len() > 0
                        &&& reply_counted(pd, ran.pd, h.rest.clock[0])
                        &&& ran.rest.clock == h.rest.clock.skip(1)
                        &&& ran.pd.secure matches Some(AcuSecureView::Secure(t)) && exists|
                            d: Seq<u8>,
                        |
                            {
                                &&& #[trigger] frame::opens_to(s, f.raw, t, d)
                                &&& ran.outcome == reply::reply_decode(f.code, d)
                            }
                    }
                },
                _ => {
                    &&& h.rest.clock.len() > 0
                    &&& ran.outcome == reply::reply_decode(f.code, f.data)
                    &&& reply_counted(pd, ran.pd, h.rest.clock[0])
                    &&& ran.pd.secure == pd.secure
                    &&& ran.rest.clock == h.rest.clock.skip(1)
                },
            },
        },
{
    assert(h.rest.clock.len() > 0 ==> h.rest.clock.skip(1) =~= h.rest.clock.drop_first());
    if let Ok(f) = h.outcome {
        law_heard_frame_is_whole(rx, delay, feed, h, f);
        law_reply_is_opened(pd, f);
    }
}

/// The reply to SCS_11 that is accepted: it has the number of the challenge, the security
/// block SCS_12 for the key that was asked for, and its cryptogram is the one that the key
/// makes of both challenges.
pub open spec fn ccrypt_is_right(pd: PdStateView, f: ReplyFrame) -> bool {
    &&& pd.secure matches Some(AcuSecureView::Challenged { session, key })
    &&& f.sqn == pd.next_sqn
    &&& f.code is CCrypt
    &&& f.scb matches Some(scb)
    &&& scb.ty is Scs12
    &&& scb.data == seq![
        if key is Scbk {
            1u8
        } else {
            0u8
        },
    ]
    &&& f.data.len() == 32
    &&& f.data.subrange(16, 32) == session::client_cryptogram(
        session::derive_keys(session.scbk, session.rnd_a),
        session.rnd_a,
        f.data.subrange(8, 16),
    )
}

/// Waiting for the reply to SCS_11. If listening ends with an error, that error is handed on
/// and nothing changes. The right reply takes the handshake to its next state, with the PD's
/// challenge out of the reply, and counts. Every other reply is refused and does not count:
/// one with another number, in another state of the handshake, or with another code but the
/// right security block leaves the handshake as it is; one with a wrong or missing security
/// block, or with contents that are wrong, ends it.
pub proof fn law_ccrypt_step_accounts(
    pd: PdStateView,
    rx: Seq<u8>,
    delay: u32,
    feed: Feed,
    h: Heard,
    ran: Ran<()>,
)
    requires
        model::hear(rx, delay, feed) == Some(h),
        model::receive_ccrypt(pd, rx, delay, feed) == Some(ran),
    ensures
        ran.rx == h.rx,
        ran.rest.io == h.rest.io,
        match h.outcome {
            Err(e) => {
                &&& ran.outcome == Err::<(), Error>(e)
                &&& ran.pd == pd
                &&& ran.rest.clock == h.rest.clock
            },
            Ok(f) => if ccrypt_is_right(pd, f) {
                &&& ran.outcome == Ok::<(), Error>(())
                &&& h.rest.clock.len() > 0
                &&& ran.rest.clock == h.rest.clock.skip(1)
                &&& reply_counted(pd, ran.pd, h.rest.clock[0])
                &&& pd.secure matches Some(AcuSecureView::Challenged { session: old_session, key: old_key })
                    && ran.pd.secure matches Some(AcuSecureView::Cryptogrammed { session, key })
                    && {
                    &&& session.scbk == old_session.scbk
                    &&& session.rnd_a == old_session.rnd_a
                    &&& session.rnd_b == f.data.subrange(8, 16)
                    &&& key == old_key
                }
            } else {
                &&& differs_in_secure(pd, ran.pd)
                &&& ran.rest.clock == h.rest.clock
                &&& if f.code !is Busy && f.sqn != pd.next_sqn {
                    &&& ran.outcome == Err::<(), Error>(
                        Error::SqnMismatch {
                            expected: pd.next_sqn.spec_value(),
                            got: f.sqn.spec_value(),
                        },
                    )
                    &&& ran.pd.secure == pd.secure
                } else {
                    match pd.secure {
                        Some(AcuSecureView::Challenged { session, key }) => {
                            let selector = seq![
                                if key is Scbk {
                                    1u8
                                } else {
                                    0u8
                                },
                            ];
                            match f.scb {
                                None => {
                                    &&& ran.outcome == Err::<(), Error>(
                                        Error::SecureSession(SecureSessionError::NotSecure),
                                    )
                                    &&& ran.pd.secure is None
                                },
                                Some(scb) => if !(scb.ty is Scs12) || scb.data != selector {
                                    &&& ran.outcome == Err::<(), Error>(
                                        Error::BadSecurityBlock(scb.ty.spec_byte()),
                                    )
                                    &&& ran.pd.secure is None
                                } else if f.code !is CCrypt {
                                    &&& ran.outcome == Err::<(), Error>(
                                        Error::UnknownReply(f.code.spec_byte()),
                                    )
                                    &&& ran.pd.secure == pd.secure
                                } else {
                                    &&& ran.pd.secure is None
                                    &&& f.data.len() == 32 ==> ran.outcome == Err::<(), Error>(
                                        Error::SecureSession(SecureSessionError::BadCryptogram),
                                    )
                                    &&& f.data.len() != 32 ==> ran.outcome is Err
                                        && ran.outcome->Err_0 is MalformedPayload
                                },
                            }
                        },
                        _ => {
                            &&& ran.outcome == Err::<(), Error>(
                                Error::SecureSession(SecureSessionError::BadTransition),
                            )
                            &&& ran.pd.secure == pd.secure
                        },
                    }
                }
            },
        },
{
    assert(h.rest.clock.len() > 0 ==> h.rest.clock.skip(1) =~= h.rest.clock.drop_first());
    if let Some(AcuSecureView::Challenged { session, key }) = pd.secure {
        assert(key.scb_data() =~= seq![
            if key is Scbk {
                1u8
            } else {
                0u8
            },
        ]);
    }
}

/// The reply to SCS_13 that is accepted: it has the number of the proof, the security block
/// SCS_14 with the status byte one, and brings the initial R-MAC that the key makes of both
/// challenges.
pub open spec fn rmac_i_is_right(pd: PdStateView, f: ReplyFrame) -> bool {
    &&& pd.secure matches Some(AcuSecureView::Cryptogrammed { session, key })
    &&& f.sqn == pd.next_sqn
    &&& f.code is RMacI
    &&& f.scb matches Some(scb)
    &&& scb.ty is Scs14
    &&& scb.data == seq![1u8]
    &&& f.data.len() == 16
    &&& f.data == session::initial_rmac(
        session::derive_keys(session.scbk, session.rnd_a),
        session.rnd_a,
        session.rnd_b,
    )
}

/// Waiting for the reply to SCS_13. If listening ends with an error, that error is handed on
/// and nothing changes. The right reply establishes the session and counts: its MACs are the
/// initial R-MAC and zeros. Every other reply is refused and does not count. One with another
/// number, in another state of the handshake, `osdp_NAK` for another reason than the
/// security block, and one with another code but the status of success leave the handshake as
/// it is. `osdp_NAK` for the security block, the status of failure, a wrong or missing
/// security block and wrong contents end it.
pub proof fn law_rmac_i_step_accounts(
    pd: PdStateView,
    rx: Seq<u8>,
    delay: u32,
    feed: Feed,
    h: Heard,
    ran: Ran<()>,
)
    requires
        model::hear(rx, delay, feed) == Some(h),
        model::receive_rmac_i(pd, rx, delay, feed) == Some(ran),
    ensures
        ran.rx == h.rx,
        ran.rest.io == h.rest.io,
        match h.outcome {
            Err(e) => {
                &&& ran.outcome == Err::<(), Error>(e)
                &&& ran.pd == pd
                &&& ran.rest.clock == h.rest.clock
            },
            Ok(f) => if rmac_i_is_right(pd, f) {
                &&& ran.outcome == Ok::<(), Error>(())
                &&& h.rest.clock.len() > 0
                &&& ran.rest.clock == h.rest.clock.skip(1)
                &&& reply_counted(pd, ran.pd, h.rest.clock[0])
                &&& pd.secure matches Some(AcuSecureView::Cryptogrammed { session, key })
                    && ran.pd.secure matches Some(AcuSecureView::Secure(s)) && {
                    &&& s.scbk == session.scbk
                    &&& s.keys == session::derive_keys(session.scbk, session.rnd_a)
                    &&& s.r_mac == f.data
                    &&& s.c_mac.len() == 16
                    &&& forall|i: int| 0 <= i < 16 ==> s.c_mac[i] == 0
                }
            } else {
                &&& differs_in_secure(pd, ran.pd)
                &&& ran.rest.clock == h.rest.clock
                &&& if f.code !is Busy && f.sqn != pd.next_sqn {
                    &&& ran.outcome == Err::<(), Error>(
                        Error::SqnMismatch {
                            expected: pd.next_sqn.spec_value(),
                            got: f.sqn.spec_value(),
                        },
                    )
                    &&& ran.pd.secure == pd.secure
                } else {
                    match pd.secure {
                        Some(AcuSecureView::Cryptogrammed { session, key }) => if f.code is Nak {
                            if f.data.len() == 0 {
                                &&& ran.outcome is Err
                                &&& ran.outcome->Err_0 is MalformedPayload
                                &&& ran.pd.secure is None
                            } else {
                                &&& ran.outcome == Err::<(), Error>(Error::Nak { code: f.data[0] })
                                &&& ran.pd.secure == if f.data[0] == 5 {
                                    None
                                } else {
                                    pd.secure
                                }
                            }
                        } else {
                            match f.scb {
                                None => {
                                    &&& ran.outcome == Err::<(), Error>(
                                        Error::SecureSession(SecureSessionError::NotSecure),
                                    )
                                    &&& ran.pd.secure is None
                                },
                                Some(scb) => if scb.ty is Scs14 && scb.data == seq![0xffu8] {
                                    &&& ran.outcome == Err::<(), Error>(
                                        Error::SecureSession(SecureSessionError::BadCryptogram),
                                    )
                                    &&& ran.pd.secure is None
                                } else if !(scb.ty is Scs14) || scb.data != seq![1u8] {
                                    &&& ran.outcome == Err::<(), Error>(
                                        Error::BadSecurityBlock(scb.ty.spec_byte()),
                                    )
                                    &&& ran.pd.secure is None
                                } else if f.code !is RMacI {
                                    &&& ran.outcome == Err::<(), Error>(
                                        Error::UnknownReply(f.code.spec_byte()),
                                    )
                                    &&& ran.pd.secure == pd.secure
                                } else {
                                    &&& ran.pd.secure is None
                                    &&& f.data.len() == 16 ==> ran.outcome == Err::<(), Error>(
                                        Error::SecureSession(SecureSessionError::BadMac),
                                    )
                                    &&& f.data.len() != 16 ==> ran.outcome is Err
                                        && ran.outcome->Err_0 is MalformedPayload
                                },
                            }
                        },
                        _ => {
                            &&& ran.outcome == Err::<(), Error>(
                                Error::SecureSession(SecureSessionError::BadTransition),
                            )
                            &&& ran.pd.secure == pd.secure
                        },
                    }
                }
            },
        },
{
    assert(h.rest.clock.len() > 0 ==> h.rest.clock.skip(1) =~= h.rest.clock.drop_first());
    assert(crate::packet::scb::SCS14_STATUS_SUCCESS@ =~= seq![1u8]);
    assert(crate::packet::scb::SCS14_STATUS_FAILURE@ =~= seq![0xffu8]);
    assert(seq![1u8][0] == 1u8 && seq![0xffu8][0] == 0xffu8);
    if let Ok(f) = h.outcome {
        if f.data.len() > 0 {
            reply::law_nak_reason_round_trip(f.data[0]);
        }
    }
}

/// What two calls hear of a frame that arrives in two parts, and what one call hears of the
/// whole.
proof fn lemma_split_is_heard(
    p: PacketView,
    code: ReplyCode,
    x: Seq<u8>,
    y: Seq<u8>,
    delay: u32,
    first: Feed,
    a: Heard,
    second: Feed,
    b: Heard,
    whole: Feed,
    c: Heard,
)
    requires
        codec::frame_well_formed(p),
        p.code == code.spec_byte(),
        codec::frame_bytes(p) == x + y,
        y.len() > 0,
        feed::delivers(first.io, x),
        model::hear(Seq::empty(), delay, first) == Some(a),
        a.rest.io.len() == 0,
        feed::delivers(second.io, y),
        model::hear(x, delay, second) == Some(b),
        b.rest.io.len() == 0,
        feed::delivers(whole.io, x + y),
        model::hear(Seq::empty(), delay, whole) == Some(c),
        c.rest.io.len() == 0,
    ensures
        a.outcome == Err::<ReplyFrame, Error>(Error::Timeout),
        a.rx == x,
        b.outcome is Ok,
        b.outcome == c.outcome,
        b.rx == c.rx,
        b.rest.clock.is_suffix_of(second.clock),
        c.rest.clock.is_suffix_of(whole.clock),
{
    let none = Seq::<u8>::empty();
    assert(none + codec::frame_bytes(p) + none =~= x + y);
    laws::law_reply_is_found_behind_noise(none, p, code, none);
    assert(none + x =~= x);
    assert(none + (x + y) =~= x + y);
    assert(x =~= codec::frame_bytes(p).take(x.len() as int));
    laws::lemma_part_waits(p, x.len() as int);
    laws::law_pieces_make_a_reply(none, delay, first, a, x);
    laws::law_pieces_make_a_reply(x, delay, second, b, y);
    laws::law_pieces_make_a_reply(none, delay, whole, c, x + y);
}

/// A handshake step may be called before its reply is there. If the first call sees none of
/// the reply, or only part of it, it times out and leaves the handshake as it is; the call
/// that sees the rest ends as one call would have that sees the whole, and leaves the same
/// bookkeeping if the clock says the same at the end.
#[verifier::rlimit(40)]
pub proof fn law_ccrypt_step_may_be_called_again(
    pd: PdStateView,
    p: PacketView,
    code: ReplyCode,
    x: Seq<u8>,
    y: Seq<u8>,
    delay: u32,
    first: Feed,
    a: Ran<()>,
    second: Feed,
    b: Ran<()>,
    whole: Feed,
    c: Ran<()>,
)
    requires
        codec::frame_well_formed(p),
        p.code == code.spec_byte(),
        codec::frame_bytes(p) == x + y,
        y.len() > 0,
        feed::delivers(first.io, x),
        model::receive_ccrypt(pd, Seq::empty(), delay, first) == Some(a),
        a.rest.io.len() == 0,
        feed::delivers(second.io, y),
        model::receive_ccrypt(a.pd, a.rx, delay, second) == Some(b),
        b.rest == Feed::nothing(),
        feed::delivers(whole.io, x + y),
        model::receive_ccrypt(pd, Seq::empty(), delay, whole) == Some(c),
        c.rest == Feed::nothing(),
        second.clock.last() == whole.clock.last(),
    ensures
        a.outcome == Err::<(), Error>(Error::Timeout),
        a.pd == pd,
        b.outcome == c.outcome,
        b.pd == c.pd,
        b.rx == c.rx,
{
    let none = Seq::<u8>::empty();
    let ha = model::hear(none, delay, first)->0;
    law_ccrypt_step_accounts(pd, none, delay, first, ha, a);
    assert(none + x =~= x);
    assert(x =~= codec::frame_bytes(p).take(x.len() as int));
    laws::lemma_part_waits(p, x.len() as int);
    laws::law_pieces_make_a_reply(none, delay, first, ha, x);
    let hb = model::hear(x, delay, second)->0;
    let hc = model::hear(none, delay, whole)->0;
    law_ccrypt_step_accounts(pd, x, delay, second, hb, b);
    law_ccrypt_step_accounts(pd, none, delay, whole, hc, c);
    lemma_split_is_heard(p, code, x, y, delay, first, ha, second, hb, whole, hc);
    let f = hb.outcome->Ok_0;
    if steps::judge_ccrypt(pd, f).0 is Ok {
        assert(hb.rest.after_clock().clock == Seq::<u64>::empty());
        assert(hc.rest.after_clock().clock == Seq::<u64>::empty());
        assert(hb.rest.clock.drop_first().len() == 0 && hc.rest.clock.drop_first().len() == 0);
        assert(hb.rest.clock[0] == second.clock.last());
        assert(hc.rest.clock[0] == whole.clock.last());
    }
}

/// The same of the second step of a handshake.
#[verifier::rlimit(40)]
pub proof fn law_rmac_i_step_may_be_called_again(
    pd: PdStateView,
    p: PacketView,
    code: ReplyCode,
    x: Seq<u8>,
    y: Seq<u8>,
    delay: u32,
    first: Feed,
    a: Ran<()>,
    second: Feed,
    b: Ran<()>,
    whole: Feed,
    c: Ran<()>,
)
    requires
        codec::frame_well_formed(p),
        p.code == code.spec_byte(),
        codec::frame_bytes(p) == x + y,
        y.len() > 0,
        feed::delivers(first.io, x),
        model::receive_rmac_i(pd, Seq::empty(), delay, first) == Some(a),
        a.rest.io.len() == 0,
        feed::delivers(second.io, y),
        model::receive_rmac_i(a.pd, a.rx, delay, second) == Some(b),
        b.rest == Feed::nothing(),
        feed::delivers(whole.io, x + y),
        model::receive_rmac_i(pd, Seq::empty(), delay, whole) == Some(c),
        c.rest == Feed::nothing(),
        second.clock.last() == whole.clock.last(),
    ensures
        a.outcome == Err::<(), Error>(Error::Timeout),
        a.pd == pd,
        b.outcome == c.outcome,
        b.pd == c.pd,
        b.rx == c.rx,
{
    let none = Seq::<u8>::empty();
    let ha = model::hear(none, delay, first)->0;
    law_rmac_i_step_accounts(pd, none, delay, first, ha, a);
    assert(none + x =~= x);
    assert(x =~= codec::frame_bytes(p).take(x.len() as int));
    laws::lemma_part_waits(p, x.len() as int);
    laws::law_pieces_make_a_reply(none, delay, first, ha, x);
    let hb = model::hear(x, delay, second)->0;
    let hc = model::hear(none, delay, whole)->0;
    law_rmac_i_step_accounts(pd, x, delay, second, hb, b);
    law_rmac_i_step_accounts(pd, none, delay, whole, hc, c);
    lemma_split_is_heard(p, code, x, y, delay, first, ha, second, hb, whole, hc);
    let f = hb.outcome->Ok_0;
    if steps::judge_rmac_i(pd, f).0 is Ok {
        assert(hb.rest.after_clock().clock == Seq::<u64>::empty());
        assert(hc.rest.after_clock().clock == Seq::<u64>::empty());
        assert(hb.rest.clock.drop_first().len() == 0 && hc.rest.clock.drop_first().len() == 0);
        assert(hb.rest.clock[0] == second.clock.last());
        assert(hc.rest.clock[0] == whole.clock.last());
    }
}

/// Running the handshake in one call is making its four calls one after the other, each
/// with the bookkeeping and the bytes that the one before has left, up to the first that
/// fails. What that one has left stays.
pub proof fn law_handshake_is_its_four_steps(
    addr: u8,
    pd: PdStateView,
    granted: Option<AcuSecureKeyMaterial>,
    draw: Result<Seq<u8>, Error>,
    rx: Seq<u8>,
    delay: u32,
    feed: Feed,
    ran: Ran<()>,
)
    requires
        model::establish(addr, pd, granted, draw, rx, delay, feed) == Some(ran),
    ensures
        model::request_challenge(addr, pd, granted, draw, rx, feed) matches Some(a) && match a.outcome {
            Err(e) => {
                &&& ran.outcome == Err::<(), Error>(e)
                &&& ran.pd == a.pd
                &&& ran.rx == a.rx
                &&& ran.rest == a.rest
            },
            Ok(_) => model::receive_ccrypt(a.pd, a.rx, delay, a.rest) matches Some(b)
                && match b.outcome {
                Err(_) => ran == b,
                Ok(_) => model::send_scrypt(addr, b.pd, b.rx, b.rest) matches Some(c)
                    && match c.outcome {
                    Err(e) => {
                        &&& ran.outcome == Err::<(), Error>(e)
                        &&& ran.pd == c.pd
                        &&& ran.rx == c.rx
                        &&& ran.rest == c.rest
                    },
                    Ok(_) => model::receive_rmac_i(c.pd, c.rx, delay, c.rest) == Some(ran),
                },
            },
        },
{
}

/// The answer to an attempt that an exchange has ended with: a frame that has the number
/// of the command or is `osdp_BUSY`, opened in the state in which sending had left the PD.
pub open spec fn answered_by(
    after: PdStateView,
    sqn: Sqn,
    f: ReplyFrame,
    answer: ReplyView,
    opened: PdStateView,
) -> bool {
    &&& f.well_formed()
    &&& f.sqn == sqn || f.code is Busy
    &&& match after.secure {
        Some(AcuSecureView::Secure(s)) => {
            &&& f.scb is Some
            &&& f.scb->0.ty is Scs16 || f.scb->0.ty is Scs18
            &&& differs_in_secure(after, opened)
            &&& opened.secure matches Some(AcuSecureView::Secure(t))
            &&& exists|d: Seq<u8>|
                {
                    &&& #[trigger] frame::opens_to(s, f.raw, t, d)
                    &&& reply::reply_decode(f.code, d) == Ok::<ReplyView, Error>(answer)
                }
        },
        _ => {
            &&& opened == after
            &&& reply::reply_decode(f.code, f.data) == Ok::<ReplyView, Error>(answer)
        },
    }
}

/// Decoding never reports a timeout.
proof fn lemma_decoding_is_no_timeout(code: ReplyCode, data: Seq<u8>)
    ensures
        reply::reply_decode(code, data) != Err::<ReplyView, Error>(Error::Timeout),
{
}

/// A frame that was heard is well formed.
proof fn lemma_heard_is_well_formed(
    rx: Seq<u8>,
    start: u64,
    empty: nat,
    reads: nat,
    delay: u32,
    feed: Feed,
)
    ensures
        model::listen(rx, start, empty, reads, delay, feed) matches Some(h) ==> (h.outcome matches Ok(
            f,
        ) ==> f.well_formed()),
    decreases feed.io.len(),
{
    if feed.io.len() > 0 {
        if let IoEvent::Read(Ok(more)) = feed.io[0] {
            progress::lemma_scanned_is_well_formed(rx + more);
            lemma_heard_is_well_formed(
                model::scan_reply(rx + more).1,
                start,
                model::empty_reads(empty, more),
                reads + 1,
                delay,
                feed.after_io().after_clock(),
            );
        }
    }
}

/// Every frame that the ACU hears is one whole frame, with a code that replies have.
pub proof fn law_heard_frame_is_whole(rx: Seq<u8>, delay: u32, feed: Feed, h: Heard, f: ReplyFrame)
    requires
        model::hear(rx, delay, feed) == Some(h),
        h.outcome == Ok::<ReplyFrame, Error>(f),
    ensures
        codec::parse_frame(f.raw) matches Ok((p, used)) && {
            &&& used == f.raw.len()
            &&& ReplyCode::spec_from_byte(p.code) == Ok::<ReplyCode, Error>(f.code)
            &&& p.ctrl.sqn == f.sqn
            &&& p.scb == f.scb
            &&& p.data == f.data
        },
{
    progress::lemma_scanned_is_well_formed(rx);
    lemma_heard_is_well_formed(
        model::scan_reply(rx).1,
        feed.clock[0],
        0,
        0,
        delay,
        feed.after_clock(),
    );
}

/// What is left is the end of what there was, and less of it.
pub open spec fn leaves(clock: Seq<u64>, rest: Seq<u64>) -> bool {
    rest.len() <= clock.len() && rest == clock.skip(clock.len() - rest.len())
}

/// Listening leaves the clock readings behind those that it takes.
proof fn lemma_hear_leaves(rx: Seq<u8>, delay: u32, feed: Feed, h: Heard)
    requires
        model::hear(rx, delay, feed) == Some(h),
    ensures
        leaves(feed.clock, h.rest.clock),
        h.rest.clock.len() < feed.clock.len(),
{
    let n = listening::law_listening_lasts_as_long_as_it_may(rx, delay, feed, h);
    assert(feed.clock.len() > 0);
}

/// What one attempt does to the bookkeeping.
proof fn lemma_try_once_accounts(
    frame: Seq<u8>,
    sqn: Sqn,
    pd: PdStateView,
    rx: Seq<u8>,
    delay: u32,
    feed: Feed,
    got: Ran<Option<ReplyView>>,
)
    requires
        model::try_once(frame, sqn, pd, rx, delay, feed) == Some(got),
    ensures
        leaves(feed.clock, got.rest.clock),
        match got.outcome {
            Ok(None) => got.pd == pd,
            Ok(Some(answer)) => exists|f: ReplyFrame| #[trigger]
                answered_by(pd, sqn, f, answer, got.pd),
            Err(_) => differs_in_secure(pd, got.pd) && (pd.is_secure() || got.pd == pd),
        },
{
    reveal(model::try_once);
    let later = feed.after_io();
    assert(feed.clock.skip(0) =~= feed.clock);
    if let IoEvent::Write(_, Ok(_)) = feed.io[0] {
        let h = model::hear(rx, delay, later)->0;
        lemma_hear_leaves(rx, delay, later, h);
        if let Ok(f) = h.outcome {
            law_heard_frame_is_whole(rx, delay, later, h, f);
            law_reply_is_opened(pd, f);
            let (data, opened) = steps::open_reply(pd, f);
            if let Ok(d) = data {
                lemma_decoding_is_no_timeout(f.code, d);
            }
            if let Ok(Some(answer)) = got.outcome {
                assert(answered_by(pd, sqn, f, answer, got.pd));
            }
        }
    }
}

/// The clock reading that ends a run.
pub open spec fn last_reading(feed: Feed, rest: Feed) -> u64 {
    feed.clock[feed.clock.len() - rest.clock.len() - 1]
}

/// How a run of attempts ends, and what it does to the bookkeeping.
pub open spec fn attempts_account(
    pd: PdStateView,
    sqn: Sqn,
    secured: bool,
    now: u64,
    ran: Ran<ExchangeView>,
) -> bool {
    match ran.outcome {
        Ok(ExchangeView::Reply(answer)) => {
            &&& answer !is Busy
            &&& exists|f: ReplyFrame, opened: PdStateView|
                {
                    &&& #[trigger] answered_by(pd, sqn, f, answer, opened)
                    &&& reply_counted(opened, ran.pd, now)
                    &&& ran.pd.secure == opened.secure
                }
        },
        Ok(ExchangeView::Busy) => exists|f: ReplyFrame, opened: PdStateView|
            {
                &&& #[trigger] answered_by(pd, sqn, f, ReplyView::Busy, opened)
                &&& ran.pd.next_sqn == opened.next_sqn
                &&& ran.pd.use_crc == opened.use_crc
                &&& ran.pd.last_seen_ms == now
                &&& ran.pd.seen
                &&& ran.pd.secure == opened.secure
            },
        Ok(_) => {
            &&& differs_in_secure(pd, ran.pd)
            &&& ran.pd.secure == if secured {
                None
            } else {
                pd.secure
            }
        },
        Err(_) => differs_in_secure(pd, ran.pd) && (pd.is_secure() || ran.pd == pd),
    }
}

/// Every run of attempts ends in one of these ways.
proof fn lemma_attempts_account(
    frame: Seq<u8>,
    secured: bool,
    sqn: Sqn,
    started: u64,
    failed: nat,
    pd: PdStateView,
    rx: Seq<u8>,
    limits: Limits,
    feed: Feed,
    ran: Ran<ExchangeView>,
)
    requires
        model::attempt(frame, secured, sqn, started, failed, pd, rx, limits, feed) == Some(ran),
    ensures
        leaves(feed.clock, ran.rest.clock),
        ran.outcome is Ok ==> ran.rest.clock.len() < feed.clock.len(),
        attempts_account(pd, sqn, secured, last_reading(feed, ran.rest), ran),
    decreases limits.max_retries - failed,
{
    let got = model::try_once(frame, sqn, pd, rx, limits.reply_delay_ms, feed)->0;
    lemma_try_once_accounts(frame, sqn, pd, rx, limits.reply_delay_ms, feed, got);
    if let Ok(answer) = got.outcome {
        let now = got.rest.clock[0];
        let rest = got.rest.after_clock();
        assert(leaves(feed.clock, rest.clock)) by {
            assert(rest.clock =~= feed.clock.skip(feed.clock.len() - rest.clock.len()));
        }
        assert(now == feed.clock[feed.clock.len() - rest.clock.len() - 1]);
        match model::verdict(answer, got.pd, secured, failed, started, limits, now) {
            None => {
                lemma_attempts_account(
                    frame,
                    secured,
                    sqn,
                    started,
                    failed + 1,
                    got.pd,
                    got.rx,
                    limits,
                    rest,
                    ran,
                );
                assert(ran.rest.clock =~= feed.clock.skip(feed.clock.len() - ran.rest.clock.len()));
                if ran.outcome is Ok {
                    assert(last_reading(feed, ran.rest) == last_reading(rest, ran.rest));
                }
            },
            Some(_) => {
                if let Some(a) = answer {
                    let f = choose|f: ReplyFrame| #[trigger] answered_by(pd, sqn, f, a, got.pd);
                    assert(answered_by(pd, sqn, f, a, got.pd));
                }
            },
        }
    }
}

/// Why a run of attempts is given up.
proof fn lemma_attempts_end(
    frame: Seq<u8>,
    secured: bool,
    sqn: Sqn,
    started: u64,
    failed: nat,
    pd: PdStateView,
    rx: Seq<u8>,
    limits: Limits,
    feed: Feed,
    ran: Ran<ExchangeView>,
)
    requires
        failed <= limits.max_retries,
        model::attempt(frame, secured, sqn, started, failed, pd, rx, limits, feed) == Some(ran),
    ensures
        ({
            let now = last_reading(feed, ran.rest);
            let written = laws::count_writes(feed.io) - laws::count_writes(ran.rest.io);
            match ran.outcome {
                Ok(ExchangeView::Timeout) => {
                    &&& !pd.is_offline(now)
                    &&& written == limits.max_retries + 1 - failed || (limits.overall_budget_ms != 0
                        && state::elapsed(now, started) >= limits.overall_budget_ms)
                },
                Ok(ExchangeView::Offline) => pd.is_offline(now),
                _ => true,
            }
        }),
    decreases limits.max_retries - failed,
{
    let got = model::try_once(frame, sqn, pd, rx, limits.reply_delay_ms, feed)->0;
    lemma_try_once_accounts(frame, sqn, pd, rx, limits.reply_delay_ms, feed, got);
    laws::lemma_try_once_writes(frame, sqn, pd, rx, limits.reply_delay_ms, feed);
    if let Ok(answer) = got.outcome {
        let now = got.rest.clock[0];
        let rest = got.rest.after_clock();
        assert(now == feed.clock[feed.clock.len() - rest.clock.len() - 1]);
        if model::verdict(answer, got.pd, secured, failed, started, limits, now) is None {
            lemma_attempts_end(
                frame,
                secured,
                sqn,
                started,
                failed + 1,
                got.pd,
                got.rx,
                limits,
                rest,
                ran,
            );
            lemma_attempts_account(
                frame,
                secured,
                sqn,
                started,
                failed + 1,
                got.pd,
                got.rx,
                limits,
                rest,
                ran,
            );
            if ran.outcome is Ok {
                assert(last_reading(feed, ran.rest) == last_reading(rest, ran.rest));
            }
        }
    }
}

/// How an exchange ends, and what it does to the bookkeeping.
///
/// A PD that is off-line at the start is not asked, and nothing changes. A command that
/// cannot be framed is refused.
///
/// Else a reply, or `osdp_BUSY`, is the answer of a frame that has the command's number or is
/// `osdp_BUSY`, opened in the state in which sending had left the PD. The PD counts as heard
/// of when the clock was read last, and the session is the one that opening the answer has
/// left. A reply advances the sequence number; `osdp_BUSY` does not, and keeps the session.
///
/// The exchange is given up as timed out only where every attempt that is allowed has gone
/// out, or the overall budget is used up, and the PD is not off-line; it is reported off-line
/// only where it is. Then a session is dropped, and nothing else changes. An error changes at
/// most the session.
pub proof fn law_exchange_accounts(
    addr: u8,
    pd: PdStateView,
    cmd: CommandView,
    rx: Seq<u8>,
    limits: Limits,
    feed: Feed,
    ran: Ran<ExchangeView>,
)
    requires
        model::exchange(addr, pd, cmd, rx, limits, feed) == Some(ran),
        ran.rest == Feed::nothing(),
    ensures
        ({
            let (frame, after) = steps::request(addr, pd, pd.next_sqn, cmd);
            if pd.is_offline(feed.clock[0]) {
                &&& ran.outcome == Ok::<ExchangeView, Error>(ExchangeView::Offline)
                &&& ran.pd == pd
                &&& ran.rx == rx
                &&& feed.io.len() == 0
            } else {
                match frame {
                    Err(e) => {
                        &&& ran.outcome == Err::<ExchangeView, Error>(e)
                        &&& ran.pd == after
                        &&& ran.rx == rx
                        &&& feed.io.len() == 0
                    },
                    Ok(_) => {
                        &&& attempts_account(
                            after,
                            pd.next_sqn,
                            pd.is_secure(),
                            feed.clock.last(),
                            ran,
                        )
                        &&& match ran.outcome {
                            Ok(ExchangeView::Timeout) => {
                                &&& !pd.is_offline(feed.clock.last())
                                &&& laws::count_writes(feed.io) == limits.max_retries + 1 || (
                                limits.overall_budget_ms != 0 && state::elapsed(
                                    feed.clock.last(),
                                    feed.clock[0],
                                ) >= limits.overall_budget_ms)
                            },
                            Ok(ExchangeView::Offline) => pd.is_offline(feed.clock.last()),
                            _ => true,
                        }
                    },
                }
            }
        }),
{
    let (frame, after) = steps::request(addr, pd, pd.next_sqn, cmd);
    if !pd.is_offline(feed.clock[0]) && frame is Ok {
        let rest = feed.after_clock();
        lemma_attempts_account(
            frame->Ok_0,
            pd.is_secure(),
            pd.next_sqn,
            feed.clock[0],
            0,
            after,
            rx,
            limits,
            rest,
            ran,
        );
        lemma_attempts_end(
            frame->Ok_0,
            pd.is_secure(),
            pd.next_sqn,
            feed.clock[0],
            0,
            after,
            rx,
            limits,
            rest,
            ran,
        );
        if ran.outcome is Ok {
            assert(last_reading(rest, ran.rest) == feed.clock.last());
        }
    }
}

/// An exchange that is busy leaves everything as opening the answer has left it, but for the
/// sign of life: a session that stood still stands, and the number is not used up. So the
/// caller can try again later, in the same session.
pub proof fn law_busy_keeps_the_session(
    addr: u8,
    pd: PdStateView,
    cmd: CommandView,
    rx: Seq<u8>,
    limits: Limits,
    feed: Feed,
    ran: Ran<ExchangeView>,
)
    requires
        model::exchange(addr, pd, cmd, rx, limits, feed) == Some(ran),
        ran.rest == Feed::nothing(),
        ran.outcome == Ok::<ExchangeView, Error>(ExchangeView::Busy),
    ensures
        ran.pd.next_sqn == pd.next_sqn,
        ran.pd.use_crc == pd.use_crc,
        ran.pd.last_seen_ms == feed.clock.last(),
        ran.pd.seen,
        pd.is_secure() <==> ran.pd.is_secure(),
        !pd.is_secure() ==> ran.pd.secure == pd.secure,
        pd.is_secure() ==> exists|f: ReplyFrame, d: Seq<u8>|
            {
                &&& #[trigger] frame::opens_to(
                    steps::request(addr, pd, pd.next_sqn, cmd).1.session()->0,
                    f.raw,
                    ran.pd.session()->0,
                    d,
                )
                &&& reply::reply_decode(f.code, d) == Ok::<ReplyView, Error>(ReplyView::Busy)
            },
{
    law_exchange_accounts(addr, pd, cmd, rx, limits, feed, ran);
    let after = steps::request(addr, pd, pd.next_sqn, cmd).1;
    let (f, opened) = choose|f: ReplyFrame, opened: PdStateView|
        {
            &&& #[trigger] answered_by(after, pd.next_sqn, f, ReplyView::Busy, opened)
            &&& ran.pd.next_sqn == opened.next_sqn
            &&& ran.pd.use_crc == opened.use_crc
            &&& ran.pd.last_seen_ms == feed.clock.last()
            &&& ran.pd.seen
            &&& ran.pd.secure == opened.secure
        };
    assert(answered_by(after, pd.next_sqn, f, ReplyView::Busy, opened));
    if let Some(AcuSecureView::Secure(s)) = pd.secure {
        let t = after.session()->0;
        let u = opened.session()->0;
        let d = choose|d: Seq<u8>|
            {
                &&& #[trigger] frame::opens_to(t, f.raw, u, d)
                &&& reply::reply_decode(f.code, d) == Ok::<ReplyView, Error>(ReplyView::Busy)
            };
        assert(frame::opens_to(t, f.raw, u, d));
    }
}

/// The events of an exchange whose first attempt is `heard`.
pub open spec fn attempt_events(c0: u64, sent: Seq<u8>, written: Result<(), Error>, heard: Feed) -> Feed {
    feed::one_reading(c0).followed_by(
        feed::one_io(IoEvent::Write(sent, written)).followed_by(heard),
    )
}

/// What an exchange comes to whose first attempt is not timed out. A transport that fails to
/// write or to read, and anything wrong with what is received, ends it with that error. A
/// frame with another number than the command's, other than `osdp_BUSY`, is refused; so is one
/// that does not open, or whose contents are wrong. An answer is handed on, and the clock is
/// read once more.
pub proof fn law_first_attempt_decides(
    addr: u8,
    pd: PdStateView,
    cmd: CommandView,
    rx: Seq<u8>,
    limits: Limits,
    c0: u64,
    written: Result<(), Error>,
    heard: Feed,
    h: Heard,
    now: u64,
    more: Feed,
)
    requires
        !pd.is_offline(c0),
        steps::request(addr, pd, pd.next_sqn, cmd).0 is Ok,
        model::hear(rx, limits.reply_delay_ms, heard) == Some(h),
        h.rest == Feed::nothing(),
        h.outcome != Err::<ReplyFrame, Error>(Error::Timeout),
    ensures
        ({
            let (frame, after) = steps::request(addr, pd, pd.next_sqn, cmd);
            let sent = frame->Ok_0;
            let timed = feed::one_reading(now).followed_by(more);
            match written {
                Err(e) => model::exchange(
                    addr,
                    pd,
                    cmd,
                    rx,
                    limits,
                    attempt_events(c0, sent, written, more),
                ) == Some(Ran::<ExchangeView> { outcome: Err(e), pd: after, rx, rest: more }),
                Ok(_) => {
                    let ran = model::exchange(
                        addr,
                        pd,
                        cmd,
                        rx,
                        limits,
                        attempt_events(c0, sent, written, heard.followed_by(timed)),
                    );
                    &&& ran is Some
                    &&& ran->0.rx == h.rx
                    &&& match h.outcome {
                        Err(e) => {
                            &&& ran->0.outcome == Err::<ExchangeView, Error>(e)
                            &&& ran->0.pd == after
                            &&& ran->0.rest == timed
                        },
                        Ok(f) => if f.code !is Busy && f.sqn != pd.next_sqn {
                            &&& ran->0.outcome == Err::<ExchangeView, Error>(
                                Error::SqnMismatch {
                                    expected: pd.next_sqn.spec_value(),
                                    got: f.sqn.spec_value(),
                                },
                            )
                            &&& ran->0.pd == after
                            &&& ran->0.rest == timed
                        } else {
                            let (data, opened) = steps::open_reply(after, f);
                            match data {
                                Err(e) => {
                                    &&& e != Error::Timeout
                                    &&& ran->0.outcome == Err::<ExchangeView, Error>(e)
                                    &&& ran->0.pd == opened
                                    &&& ran->0.rest == timed
                                },
                                Ok(d) => match reply::reply_decode(f.code, d) {
                                    Err(e) => {
                                        &&& ran->0.outcome == Err::<ExchangeView, Error>(e)
                                        &&& ran->0.pd == opened
                                        &&& ran->0.rest == timed
                                    },
                                    Ok(answer) => {
                                        &&& ran->0.rest == more
                                        &&& ran->0.pd.use_crc == opened.use_crc
                                        &&& ran->0.pd.last_seen_ms == now
                                        &&& ran->0.pd.seen
                                        &&& ran->0.pd.secure == opened.secure
                                        &&& if answer is Busy {
                                            &&& ran->0.outcome == Ok::<ExchangeView, Error>(
                                                ExchangeView::Busy,
                                            )
                                            &&& ran->0.pd.next_sqn == opened.next_sqn
                                        } else {
                                            &&& ran->0.outcome == Ok::<ExchangeView, Error>(
                                                ExchangeView::Reply(answer),
                                            )
                                            &&& ran->0.pd.next_sqn == opened.next_sqn.spec_next()
                                        }
                                    },
                                },
                            }
                        },
                    }
                },
            }
        }),
{
    reveal(model::try_once);
    let (frame, after) = steps::request(addr, pd, pd.next_sqn, cmd);
    let sent = frame->Ok_0;
    let timed = feed::one_reading(now).followed_by(more);
    let event = IoEvent::Write(sent, written);
    let tail = if written is Ok {
        heard.followed_by(timed)
    } else {
        more
    };
    let first = feed::one_io(event).followed_by(tail);
    feed::lemma_first(event, c0, first);
    feed::lemma_first(event, c0, tail);
    feed::lemma_first(event, now, more);
    feed::lemma_followed_by(timed, timed, timed);
    progress::lemma_hear_extends(rx, limits.reply_delay_ms, heard, timed);
    if let Ok(f) = h.outcome {
        law_heard_frame_is_whole(rx, limits.reply_delay_ms, heard, h, f);
        let (data, opened) = steps::open_reply(after, f);
        if let Ok(d) = data {
            lemma_decoding_is_no_timeout(f.code, d);
        }
    }
}

/// Only the number of attempts that are left matters.
proof fn lemma_attempts_shift(
    frame: Seq<u8>,
    secured: bool,
    sqn: Sqn,
    started: u64,
    failed: nat,
    pd: PdStateView,
    rx: Seq<u8>,
    fewer: Limits,
    limits: Limits,
    feed: Feed,
)
    requires
        limits.max_retries == fewer.max_retries + 1,
        limits.reply_delay_ms == fewer.reply_delay_ms,
        limits.overall_budget_ms == fewer.overall_budget_ms,
    ensures
        model::attempt(frame, secured, sqn, started, failed + 1, pd, rx, limits, feed)
            == model::attempt(frame, secured, sqn, started, failed, pd, rx, fewer, feed),
    decreases fewer.max_retries - failed,
{
    if let Some(got) = model::try_once(frame, sqn, pd, rx, limits.reply_delay_ms, feed) {
        if got.outcome is Ok && got.rest.clock.len() > 0 {
            let now = got.rest.clock[0];
            let rest = got.rest.after_clock();
            if model::verdict(
                got.outcome->Ok_0,
                got.pd,
                secured,
                failed,
                started,
                fewer,
                now,
            ) is None {
                lemma_attempts_shift(
                    frame,
                    secured,
                    sqn,
                    started,
                    failed + 1,
                    got.pd,
                    got.rx,
                    fewer,
                    limits,
                    rest,
                );
            }
        }
    }
}

/// What a first attempt that times out leads to, once the clock has been read. If the PD is
/// then off-line, the exchange says so; if no retry is left, or the overall budget is used
/// up, it has timed out. Either way a session is dropped and nothing else changes. Else the
/// exchange goes on as if the attempt had not been made, with one retry less: the same frame
/// goes out again, what has arrived is kept, and the budget runs from the start.
#[verifier::rlimit(40)]
pub proof fn law_timed_out_attempt_costs_a_retry(
    addr: u8,
    pd: PdStateView,
    cmd: CommandView,
    rx: Seq<u8>,
    limits: Limits,
    fewer: Limits,
    c0: u64,
    heard: Feed,
    h: Heard,
    now: u64,
    more: Feed,
)
    requires
        !pd.is_offline(c0),
        steps::request(addr, pd, pd.next_sqn, cmd).0 is Ok,
        model::hear(rx, limits.reply_delay_ms, heard) == Some(h),
        h.rest == Feed::nothing(),
        h.outcome == Err::<ReplyFrame, Error>(Error::Timeout),
        limits.max_retries > 0 ==> {
            &&& limits.max_retries == fewer.max_retries + 1
            &&& limits.reply_delay_ms == fewer.reply_delay_ms
            &&& limits.overall_budget_ms == fewer.overall_budget_ms
        },
    ensures
        ({
            let sent = steps::request(addr, pd, pd.next_sqn, cmd).0->Ok_0;
            let timed = feed::one_reading(now).followed_by(more);
            let ran = model::exchange(
                addr,
                pd,
                cmd,
                rx,
                limits,
                attempt_events(c0, sent, Ok(()), heard.followed_by(timed)),
            );
            if pd.is_offline(now) || limits.max_retries == 0 || (limits.overall_budget_ms != 0
                && state::elapsed(now, c0) >= limits.overall_budget_ms) {
                &&& ran is Some
                &&& ran->0.outcome == Ok::<ExchangeView, Error>(
                    if pd.is_offline(now) {
                        ExchangeView::Offline
                    } else {
                        ExchangeView::Timeout
                    },
                )
                &&& differs_in_secure(pd, ran->0.pd)
                &&& ran->0.pd.secure == if pd.is_secure() {
                    None
                } else {
                    pd.secure
                }
                &&& ran->0.rx == h.rx
                &&& ran->0.rest == more
            } else {
                ran == model::exchange(
                    addr,
                    pd,
                    cmd,
                    h.rx,
                    fewer,
                    feed::one_reading(c0).followed_by(more),
                )
            }
        }),
{
    let (frame, after) = steps::request(addr, pd, pd.next_sqn, cmd);
    let sent = frame->Ok_0;
    let timed = feed::one_reading(now).followed_by(more);
    let event = IoEvent::Write(sent, Ok(()));
    let tail = heard.followed_by(timed);
    let first = feed::one_io(event).followed_by(tail);
    feed::lemma_first(event, c0, first);
    feed::lemma_first(event, c0, tail);
    feed::lemma_first(event, c0, more);
    feed::lemma_first(event, now, more);
    feed::lemma_followed_by(timed, timed, timed);
    progress::lemma_hear_extends(rx, limits.reply_delay_ms, heard, timed);
    assert(model::try_once(sent, pd.next_sqn, after, rx, limits.reply_delay_ms, first) == Some(
        Ran { outcome: Ok(None::<ReplyView>), pd: after, rx: h.rx, rest: timed },
    )) by {
        reveal(model::try_once);
    }
    if limits.max_retries > 0 {
        lemma_attempts_shift(
            sent,
            pd.is_secure(),
            pd.next_sqn,
            c0,
            0,
            after,
            h.rx,
            fewer,
            limits,
            more,
        );
    }
}

/// What an attempt comes to, on plain values. An answer counts as a sign of life at `now`;
/// `osdp_BUSY` keeps the number, any other reply uses it up, and neither touches the session.
/// Without an answer, a PD that is off-line at `now` is reported so; else the exchange has
/// timed out if no retry is left or the overall budget is used up, and else there is another
/// attempt, for which nothing changes. Giving a secured exchange up drops the session, and
/// nothing else.
pub proof fn law_attempt_is_judged(
    answer: Option<ReplyView>,
    pd: PdStateView,
    secured: bool,
    failed: nat,
    started: u64,
    limits: Limits,
    now: u64,
)
    ensures
        ({
            let used_up = limits.overall_budget_ms != 0 && now >= started
                + limits.overall_budget_ms;
            match (answer, model::verdict(answer, pd, secured, failed, started, limits, now)) {
                (Some(reply), v) => {
                    &&& v matches Some((outcome, after)) && {
                        &&& after.use_crc == pd.use_crc
                        &&& after.last_seen_ms == now
                        &&& after.seen
                        &&& after.secure == pd.secure
                        &&& if reply is Busy {
                            outcome is Busy && after.next_sqn == pd.next_sqn
                        } else {
                            outcome == ExchangeView::Reply(reply) && after.next_sqn
                                == pd.next_sqn.spec_next()
                        }
                    }
                },
                (None, None) => {
                    &&& !pd.is_offline(now)
                    &&& failed < limits.max_retries
                    &&& !used_up
                },
                (None, Some((outcome, after))) => {
                    &&& if pd.is_offline(now) {
                        outcome is Offline
                    } else {
                        outcome is Timeout && (failed >= limits.max_retries || used_up)
                    }
                    &&& differs_in_secure(pd, after)
                    &&& after.secure == if secured {
                        None
                    } else {
                        pd.secure
                    }
                },
            }
        }),
{
}

/// What specifications see of results and of the bookkeeping is all there is to them, and
/// the limits of an exchange are those of the policy. A call is told by the transport
/// operations and clock readings that have been added to the records since, and by the bytes
/// that it leaves.
pub proof fn law_driver_is_seen_whole<T: Transport, C: Clock>(
    before: Acu<T, C>,
    acu: Acu<T, C>,
    pd: PdState,
    outcome: ExchangeOutcome,
    reply: Reply,
    sent: Vec<u8>,
    e: Error,
)
    ensures
        match outcome {
            ExchangeOutcome::Reply(r) => outcome@ == ExchangeView::Reply(r@),
            ExchangeOutcome::Busy => outcome@ is Busy,
            ExchangeOutcome::Timeout => outcome@ is Timeout,
            ExchangeOutcome::Offline => outcome@ is Offline,
        },
        acu::exchange_result(Ok(outcome)) == Ok::<ExchangeView, Error>(outcome@),
        acu::exchange_result(Err(e)) == Err::<ExchangeView, Error>(e),
        reply::reply_result(Ok(reply)) == Ok::<ReplyView, Error>(reply@),
        reply::reply_result(Err(e)) == Err::<ReplyView, Error>(e),
        bytes::vec_result(Ok(sent)) == Ok::<Seq<u8>, Error>(sent@),
        bytes::vec_result(Err(e)) == Err::<Seq<u8>, Error>(e),
        pd@.next_sqn == pd.next_sqn,
        pd@.use_crc == pd.use_crc,
        pd@.last_seen_ms == pd.last_seen_ms,
        pd@.seen == pd.seen_at_least_once,
        match pd.secure_state {
            Some(AcuSecureState::Challenged { session, key }) => pd@.secure == Some(
                AcuSecureView::Challenged { session: session@, key },
            ),
            Some(AcuSecureState::Cryptogrammed { session, key }) => pd@.secure == Some(
                AcuSecureView::Cryptogrammed { session: session@, key },
            ),
            Some(AcuSecureState::Secure(session)) => pd@.secure == Some(
                AcuSecureView::Secure(session@),
            ),
            None => pd@.secure is None,
        },
        acu.limits().reply_delay_ms == acu.reply_delay_ms,
        acu.limits().max_retries == acu.retry.max_retries,
        acu.limits().overall_budget_ms == acu.retry.overall_budget_ms,
        acu.follows(before) ==> {
            &&& acu.transport.log() == before.transport.log() + acu.events_since(before).io
            &&& acu.readings@ == before.readings@ + acu.events_since(before).clock
            &&& acu.reply_delay_ms == before.reply_delay_ms
            &&& acu.retry == before.retry
        },
        acu.ended(acu::exchange_result(Ok(outcome)), pd@) matches Some(ran) && {
            &&& ran.outcome == Ok::<ExchangeView, Error>(outcome@)
            &&& ran.pd == pd@
            &&& ran.rx == acu.rx_buf@
            &&& ran.rest.io.len() == 0
            &&& ran.rest.clock.len() == 0
        },
{
    if acu.follows(before) {
        assert(acu.transport.log() =~= before.transport.log() + acu.events_since(before).io);
        assert(acu.readings@ =~= before.readings@ + acu.events_since(before).clock);
    }
}

} // verus!
