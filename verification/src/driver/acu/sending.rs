//! What the ACU puts on the bus.

use vstd::prelude::*;

use crate::command::CommandView;
use crate::driver::acu::model::{self, Ran};
use crate::driver::acu::state::{AcuSecureKey, AcuSecureKeyMaterial, AcuSecureView, PdStateView};
use crate::driver::acu::steps;
use crate::driver::feed::Feed;
use crate::error::{Error, SecureSessionError};
use crate::packet::codec;
use crate::packet::codec::PacketView;
use crate::packet::control::{Address, ControlByte, CtrlFlags, Sqn};
use crate::packet::scb::{ScbView, ScsType};
use crate::secure::frame;
use crate::secure::session;
use crate::secure::session::SecureView;
use crate::transport::IoEvent;

verus! {

/// Outside a session, a command goes out to every address of seven bits, with DATA of every
/// length that the LEN field has room for. Its frame is one packet that says the address,
/// the number, the kind of trailer and the command, and nothing else. Any other command is
/// refused, for its address first, then for its contents, then for its size.
pub proof fn law_plain_command_is_framed(
    addr: u8,
    use_crc: bool,
    sqn: Sqn,
    cmd: CommandView,
    rest: Seq<u8>,
)
    ensures
        ({
            let trailer = if use_crc {
                2int
            } else {
                1
            };
            match steps::plain_request(addr, use_crc, sqn, cmd) {
                Ok(f) => {
                    &&& addr <= 127
                    &&& cmd.data() matches Ok(data) && {
                        &&& 6 + data.len() + trailer <= 65535
                        &&& f.len() == 6 + data.len() + trailer
                        &&& codec::parse_frame(f + rest) == Ok::<(PacketView, int), Error>(
                            (
                                PacketView {
                                    addr: Address { byte: addr },
                                    ctrl: ControlByte {
                                        sqn,
                                        flags: CtrlFlags { use_crc, has_scb: false },
                                    },
                                    scb: None,
                                    code: cmd.code().spec_byte(),
                                    data,
                                    mac: None,
                                },
                                f.len() as int,
                            ),
                        )
                    }
                },
                Err(e) => if addr > 127 {
                    e == Error::BadAddress(addr)
                } else {
                    match cmd.data() {
                        Err(d) => e == d,
                        Ok(data) => {
                            &&& 6 + data.len() + trailer > 65535
                            &&& e == Error::PayloadTooLarge { len: data.len() as usize }
                        },
                    }
                },
            }
        }),
{
    if let Ok(data) = cmd.data() {
        codec::law_packet_is_written(
            PacketView {
                addr: Address { byte: addr },
                ctrl: ControlByte { sqn, flags: CtrlFlags { use_crc, has_scb: false } },
                scb: None,
                code: cmd.code().spec_byte(),
                data,
                mac: None,
            },
            rest,
        );
    }
}

/// A handshake command goes out to every address of seven bits. Its frame is one packet
/// with the security block of the step, whose data byte names the key: one for the SCBK, zero
/// for the installation default.
pub proof fn law_handshake_command_is_framed(
    addr: u8,
    use_crc: bool,
    sqn: Sqn,
    scs: ScsType,
    key: AcuSecureKey,
    cmd: CommandView,
    rest: Seq<u8>,
)
    requires
        scs is Scs11 || scs is Scs13,
        cmd.data() is Ok,
        cmd.data()->Ok_0.len() <= 16,
    ensures
        match steps::handshake_request(addr, use_crc, sqn, scs, key, cmd) {
            Ok(f) => {
                &&& addr <= 127
                &&& codec::parse_frame(f + rest) == Ok::<(PacketView, int), Error>(
                    (
                        PacketView {
                            addr: Address { byte: addr },
                            ctrl: ControlByte { sqn, flags: CtrlFlags { use_crc, has_scb: true } },
                            scb: Some(
                                ScbView {
                                    ty: scs,
                                    data: seq![
                                        if key is Scbk {
                                            1u8
                                        } else {
                                            0u8
                                        },
                                    ],
                                },
                            ),
                            code: cmd.code().spec_byte(),
                            data: cmd.data()->Ok_0,
                            mac: None,
                        },
                        f.len() as int,
                    ),
                )
            },
            Err(e) => addr > 127 && e == Error::BadAddress(addr),
        },
{
    let block = ScbView {
        ty: scs,
        data: seq![
            if key is Scbk {
                1u8
            } else {
                0u8
            },
        ],
    };
    assert(key.scb_data() =~= block.data);
    codec::law_packet_is_written(
        PacketView {
            addr: Address { byte: addr },
            ctrl: ControlByte { sqn, flags: CtrlFlags { use_crc, has_scb: true } },
            scb: Some(block),
            code: cmd.code().spec_byte(),
            data: cmd.data()->Ok_0,
            mac: None,
        },
        rest,
    );
}

/// In a session, a command goes out to every address of seven bits, with DATA of every length
/// that the LEN field has room for once it is padded. Its frame is one packet with the
/// ACU's security block, says the address, the number and the code, and moves the session on
/// by the MAC of the command alone. Too much DATA leaves the session as it is; a command that
/// has none to send, or no address to go to, ends it.
pub proof fn law_secured_command_is_framed(
    addr: u8,
    pd: PdStateView,
    s: SecureView,
    sqn: Sqn,
    cmd: CommandView,
)
    requires
        pd.secure == Some(AcuSecureView::Secure(s)),
    ensures
        ({
            let (r, after) = steps::request(addr, pd, sqn, cmd);
            &&& after.next_sqn == pd.next_sqn
            &&& after.use_crc == pd.use_crc
            &&& after.last_seen_ms == pd.last_seen_ms
            &&& after.seen == pd.seen
            &&& match cmd.data() {
                Err(e) => r == Err::<Seq<u8>, Error>(e) && after.secure is None,
                Ok(data) => {
                    let blocks = if data.len() > 0 {
                        16 * (data.len() / 16 + 1)
                    } else {
                        0
                    };
                    if addr > 127 {
                        &&& r == Err::<Seq<u8>, Error>(Error::BadAddress(addr))
                        &&& after.secure is None
                    } else if 14 + blocks > 65535 {
                        &&& r == Err::<Seq<u8>, Error>(
                            Error::PayloadTooLarge { len: blocks as usize },
                        )
                        &&& after.secure == pd.secure
                    } else {
                        &&& r matches Ok(raw) && codec::parse_frame(raw) matches Ok((q, used)) && {
                            &&& used == raw.len()
                            &&& q.addr == (Address { byte: addr })
                            &&& q.ctrl.sqn == sqn
                            &&& q.ctrl.flags.use_crc
                            &&& q.scb matches Some(scb) && scb.data.len() == 0 && if data.len()
                                > 0 {
                                scb.ty is Scs17
                            } else {
                                scb.ty is Scs15
                            }
                            &&& q.code == cmd.code().spec_byte()
                            &&& q.data.len() == blocks
                            &&& after.secure matches Some(AcuSecureView::Secure(t)) && {
                                &&& q.mac == Some(t.c_mac.take(4))
                                &&& t.r_mac == s.r_mac
                                &&& t.scbk == s.scbk
                                &&& t.keys == s.keys
                            }
                        }
                    }
                },
            }
        }),
{
    if let Ok(data) = cmd.data() {
        frame::law_message_is_sealed(
            s,
            Address { byte: addr },
            sqn,
            frame::Direction::AcuToPd,
            cmd.code().spec_byte(),
            data,
        );
    }
}

/// The frame that a command can be sent in: one packet to `addr`, under the next number of
/// the bookkeeping, with the trailer that the PD prefers and exactly the command's code and
/// DATA; or, in a session, with a CRC and the ACU's security block, and DATA in whole blocks.
pub open spec fn says(
    raw: Seq<u8>,
    addr: u8,
    pd: PdStateView,
    cmd: CommandView,
) -> bool {
    &&& codec::parse_frame(raw) matches Ok((q, used))
    &&& used == raw.len()
    &&& q.addr == (Address { byte: addr })
    &&& q.ctrl.sqn == pd.next_sqn
    &&& q.code == cmd.code().spec_byte()
    &&& match pd.secure {
        Some(AcuSecureView::Secure(_)) => {
            &&& q.ctrl.flags.use_crc
            &&& q.scb matches Some(scb) && if cmd.data()->Ok_0.len() > 0 {
                scb.ty is Scs17
            } else {
                scb.ty is Scs15
            }
        },
        _ => {
            &&& q.ctrl.flags.use_crc == pd.use_crc
            &&& q.scb is None
            &&& q.data == cmd.data()->Ok_0
        },
    }
}

/// A command that can be sent, and how long its frame then is.
pub open spec fn can_be_sent(addr: u8, pd: PdStateView, cmd: CommandView) -> bool {
    &&& addr <= 127
    &&& cmd.data() matches Ok(data)
    &&& match pd.secure {
        Some(AcuSecureView::Secure(_)) => 14 + (if data.len() > 0 {
            16 * (data.len() / 16 + 1)
        } else {
            0
        }) <= 65535,
        _ => 6 + data.len() + (if pd.use_crc {
            2int
        } else {
            1
        }) <= 65535,
    }
}

/// Sending a command writes once, if the command can be sent at all, and a frame that says
/// the command under the next number of the bookkeeping. The bytes are returned, or the
/// error of the transport. Outside a session nothing of the bookkeeping changes; in one, only
/// the session. A command that cannot be sent is refused without a write. Nothing is read.
pub proof fn law_command_is_sent_under_its_number(
    addr: u8,
    pd: PdStateView,
    cmd: CommandView,
    rx: Seq<u8>,
    feed: Feed,
    ran: Ran<Seq<u8>>,
)
    requires
        model::send_command(addr, pd, cmd, rx, feed) == Some(ran),
    ensures
        ran.rx == rx,
        ran.rest.clock == feed.clock,
        ran.pd.next_sqn == pd.next_sqn,
        ran.pd.use_crc == pd.use_crc,
        ran.pd.last_seen_ms == pd.last_seen_ms,
        ran.pd.seen == pd.seen,
        pd.is_secure() || ran.pd.secure == pd.secure,
        if can_be_sent(addr, pd, cmd) {
            &&& feed.io.len() > 0
            &&& ran.rest.io == feed.io.skip(1)
            &&& feed.io[0] matches IoEvent::Write(raw, written) && {
                &&& says(raw, addr, pd, cmd)
                &&& ran.outcome == match written {
                    Ok(_) => Ok(raw),
                    Err(e) => Err(e),
                }
            }
            &&& pd.is_secure() ==> ran.pd.is_secure()
        } else {
            &&& ran.outcome is Err
            &&& ran.rest.io == feed.io
        },
{
    if let Some(AcuSecureView::Secure(s)) = pd.secure {
        law_secured_command_is_framed(addr, pd, s, pd.next_sqn, cmd);
    } else {
        law_plain_command_is_framed(addr, pd.use_crc, pd.next_sqn, cmd, Seq::empty());
        if let Ok(f) = steps::plain_request(addr, pd.use_crc, pd.next_sqn, cmd) {
            assert(f + Seq::<u8>::empty() =~= f);
        }
    }
    assert(feed.io.len() > 0 ==> feed.io.skip(1) =~= feed.io.drop_first());
}

/// Opening a handshake asks for the key first, then for a random challenge. Without a key,
/// or without a challenge, nothing is sent and nothing changes. Else SCS_11 goes out once,
/// with the key's selector and the challenge, under the next number. Once it is out the
/// challenge and the key are remembered, in the place of any session; nothing else changes.
pub proof fn law_challenge_goes_out(
    addr: u8,
    pd: PdStateView,
    granted: Option<AcuSecureKeyMaterial>,
    draw: Result<Seq<u8>, Error>,
    rx: Seq<u8>,
    feed: Feed,
    ran: Ran<Seq<u8>>,
)
    requires
        model::request_challenge(addr, pd, granted, draw, rx, feed) == Some(ran),
        draw matches Ok(rnd_a) ==> rnd_a.len() == 8,
    ensures
        ran.rx == rx,
        ran.rest.clock == feed.clock,
        ran.pd.next_sqn == pd.next_sqn,
        ran.pd.use_crc == pd.use_crc,
        ran.pd.last_seen_ms == pd.last_seen_ms,
        ran.pd.seen == pd.seen,
        match (granted, draw) {
            (None, _) => {
                &&& ran.outcome == Err::<Seq<u8>, Error>(
                    Error::SecureSession(SecureSessionError::KeyUnavailable),
                )
                &&& ran.pd == pd
                &&& ran.rest == feed
            },
            (Some(_), Err(e)) => {
                &&& ran.outcome == Err::<Seq<u8>, Error>(e)
                &&& ran.pd == pd
                &&& ran.rest == feed
            },
            (Some(material), Ok(rnd_a)) => if addr > 127 {
                &&& ran.outcome == Err::<Seq<u8>, Error>(Error::BadAddress(addr))
                &&& ran.pd == pd
                &&& ran.rest == feed
            } else {
                &&& feed.io.len() > 0
                &&& ran.rest.io == feed.io.skip(1)
                &&& feed.io[0] matches IoEvent::Write(raw, written) && {
                    &&& codec::parse_frame(raw) == Ok::<(PacketView, int), Error>(
                        (
                            PacketView {
                                addr: Address { byte: addr },
                                ctrl: ControlByte {
                                    sqn: pd.next_sqn,
                                    flags: CtrlFlags { use_crc: pd.use_crc, has_scb: true },
                                },
                                scb: Some(
                                    ScbView {
                                        ty: ScsType::Scs11,
                                        data: seq![
                                            if material.selection is Scbk {
                                                1u8
                                            } else {
                                                0u8
                                            },
                                        ],
                                    },
                                ),
                                code: 0x76,
                                data: rnd_a,
                                mac: None,
                            },
                            raw.len() as int,
                        ),
                    )
                    &&& match written {
                        Ok(_) => {
                            &&& ran.outcome == Ok::<Seq<u8>, Error>(raw)
                            &&& ran.pd.secure matches Some(
                                AcuSecureView::Challenged { session, key },
                            ) && {
                                &&& session.scbk == material.scbk@
                                &&& session.rnd_a == rnd_a
                                &&& key == material.selection
                            }
                        },
                        Err(e) => ran.outcome == Err::<Seq<u8>, Error>(e) && ran.pd == pd,
                    }
                }
            },
        },
{
    if let (Some(material), Ok(rnd_a)) = (granted, draw) {
        let cmd = CommandView::Chlng { rnd_a };
        law_handshake_command_is_framed(
            addr,
            pd.use_crc,
            pd.next_sqn,
            ScsType::Scs11,
            material.selection,
            cmd,
            Seq::empty(),
        );
        if let Ok(f) = steps::handshake_request(
            addr,
            pd.use_crc,
            pd.next_sqn,
            ScsType::Scs11,
            material.selection,
            cmd,
        ) {
            assert(f + Seq::<u8>::empty() =~= f);
        }
    }
    assert(feed.io.len() > 0 ==> feed.io.skip(1) =~= feed.io.drop_first());
}

/// SCS_13 can only be sent once the PD's cryptogram has been found right. It then goes out
/// once, with the selector of the key that the handshake asked for and the cryptogram over
/// both challenges, under the next number. Sending it, or failing to, changes nothing, so it
/// can be sent again.
#[verifier::rlimit(40)]
pub proof fn law_proof_goes_out(
    addr: u8,
    pd: PdStateView,
    rx: Seq<u8>,
    feed: Feed,
    ran: Ran<Seq<u8>>,
)
    requires
        model::send_scrypt(addr, pd, rx, feed) == Some(ran),
    ensures
        ran.rx == rx,
        ran.rest.clock == feed.clock,
        ran.pd == pd,
        match pd.secure {
            Some(AcuSecureView::Cryptogrammed { session, key }) => if addr > 127 {
                &&& ran.outcome == Err::<Seq<u8>, Error>(Error::BadAddress(addr))
                &&& ran.rest == feed
            } else {
                &&& feed.io.len() > 0
                &&& ran.rest.io == feed.io.skip(1)
                &&& feed.io[0] matches IoEvent::Write(raw, written) && {
                    &&& codec::parse_frame(raw) == Ok::<(PacketView, int), Error>(
                        (
                            PacketView {
                                addr: Address { byte: addr },
                                ctrl: ControlByte {
                                    sqn: pd.next_sqn,
                                    flags: CtrlFlags { use_crc: pd.use_crc, has_scb: true },
                                },
                                scb: Some(
                                    ScbView {
                                        ty: ScsType::Scs13,
                                        data: seq![
                                            if key is Scbk {
                                                1u8
                                            } else {
                                                0u8
                                            },
                                        ],
                                    },
                                ),
                                code: 0x77,
                                data: session::server_cryptogram(
                                    session::derive_keys(session.scbk, session.rnd_a),
                                    session.rnd_a,
                                    session.rnd_b,
                                ),
                                mac: None,
                            },
                            raw.len() as int,
                        ),
                    )
                    &&& ran.outcome == match written {
                        Ok(_) => Ok(raw),
                        Err(e) => Err(e),
                    }
                }
            },
            _ => {
                &&& ran.outcome == Err::<Seq<u8>, Error>(
                    Error::SecureSession(SecureSessionError::BadTransition),
                )
                &&& ran.rest == feed
            },
        },
{
    if let Some(AcuSecureView::Cryptogrammed { session, key }) = pd.secure {
        let cmd = CommandView::SCrypt {
            server_cryptogram: session::server_cryptogram(
                session::derive_keys(session.scbk, session.rnd_a),
                session.rnd_a,
                session.rnd_b,
            ),
        };
        law_handshake_command_is_framed(
            addr,
            pd.use_crc,
            pd.next_sqn,
            ScsType::Scs13,
            key,
            cmd,
            Seq::empty(),
        );
        if let Ok(f) = steps::handshake_request(
            addr,
            pd.use_crc,
            pd.next_sqn,
            ScsType::Scs13,
            key,
            cmd,
        ) {
            assert(f + Seq::<u8>::empty() =~= f);
        }
    }
    assert(feed.io.len() > 0 ==> feed.io.skip(1) =~= feed.io.drop_first());
}

} // verus!
