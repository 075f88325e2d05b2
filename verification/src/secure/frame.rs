//! Protection of frames once a session stands.

use vstd::prelude::*;

use crate::bytes::{append, bytes_equal, range};
use crate::error::{Error, SecureSessionError};
use crate::packet::codec;
use crate::packet::codec::{append_trailer, PacketBuilder, PacketView, ParsedPacket, MAC_LEN};
use crate::packet::control::{Address, ControlByte, CtrlFlags, Sqn};
use crate::packet::scb::{Scb, ScbView, ScsType};
use crate::secure::cipher;
use crate::secure::session::{Disconnected, Secure, SecureView, Session};

verus! {

/// Who sends a frame.
#[derive(Debug, Clone, Copy, PartialEq, Eq, Structural)]
pub enum Direction {
    /// A command.
    AcuToPd,
    /// A reply.
    PdToAcu,
}

/// The MAC that a message chains on: the last one of the other direction.
pub open spec fn icv(s: SecureView, dir: Direction) -> Seq<u8> {
    match dir {
        Direction::AcuToPd => s.r_mac,
        Direction::PdToAcu => s.c_mac,
    }
}

/// The session after a message with this MAC.
pub open spec fn advance(s: SecureView, dir: Direction, mac: Seq<u8>) -> SecureView {
    match dir {
        Direction::AcuToPd => SecureView { c_mac: mac, ..s },
        Direction::PdToAcu => SecureView { r_mac: mac, ..s },
    }
}

/// Security block type of a secured message.
pub open spec fn scs_for(dir: Direction, encrypt: bool) -> ScsType {
    match (dir, encrypt) {
        (Direction::AcuToPd, false) => ScsType::Scs15,
        (Direction::PdToAcu, false) => ScsType::Scs16,
        (Direction::AcuToPd, true) => ScsType::Scs17,
        (Direction::PdToAcu, true) => ScsType::Scs18,
    }
}

/// MAC of a message.
pub open spec fn mac_of(s: SecureView, dir: Direction, message: Seq<u8>) -> Seq<u8> {
    cipher::message_mac(s.keys.s_mac1, s.keys.s_mac2, icv(s, dir), message)
}

/// DATA as it goes on the wire.
pub open spec fn wire_data(s: SecureView, dir: Direction, encrypt: bool, data: Seq<u8>) -> Seq<
    u8,
> {
    if encrypt {
        cipher::cbc_encrypt(s.keys.s_enc, cipher::complement(icv(s, dir)), cipher::pad(data))
    } else {
        Seq::empty()
    }
}

/// The frame of a secured message before its MAC is known.
pub open spec fn unsigned(
    s: SecureView,
    addr: Address,
    sqn: Sqn,
    dir: Direction,
    encrypt: bool,
    code: u8,
    data: Seq<u8>,
) -> PacketView {
    PacketView {
        addr,
        ctrl: ControlByte { sqn, flags: CtrlFlags { use_crc: true, has_scb: true } },
        scb: Some(ScbView { ty: scs_for(dir, encrypt), data: Seq::empty() }),
        code,
        data: wire_data(s, dir, encrypt, data),
        mac: None,
    }
}

/// The secured frame, with the session that it leaves behind.
pub open spec fn seal_frame(
    s: SecureView,
    addr: Address,
    sqn: Sqn,
    dir: Direction,
    encrypt: bool,
    code: u8,
    data: Seq<u8>,
) -> Result<(SecureView, Seq<u8>), Error> {
    if !encrypt && data.len() > 0 {
        Err(Error::SecureSession(SecureSessionError::PlaintextData))
    } else {
        let p = unsigned(s, addr, sqn, dir, encrypt, code, data);
        match codec::frame_fits(p, MAC_LEN as int) {
            Err(e) => Err(e),
            Ok(_) => {
                let mac = mac_of(s, dir, codec::frame_prefix(p, MAC_LEN as int));
                Ok(
                    (
                        advance(s, dir, mac),
                        codec::frame_bytes(PacketView { mac: Some(mac.take(4)), ..p }),
                    ),
                )
            },
        }
    }
}

/// Who sends frames with a security block of this type.
pub open spec fn direction_of(ty: ScsType) -> Direction {
    if ty is Scs15 || ty is Scs17 || ty is Scs11 || ty is Scs13 {
        Direction::AcuToPd
    } else {
        Direction::PdToAcu
    }
}

/// Plaintext of an authentic message.
pub open spec fn open_data(s: SecureView, p: PacketView, dir: Direction, encrypted: bool) -> Result<
    Seq<u8>,
    Error,
> {
    if !encrypted {
        if p.data.len() > 0 {
            Err(Error::SecureSession(SecureSessionError::PlaintextData))
        } else {
            Ok(Seq::empty())
        }
    } else if p.data.len() == 0 || p.data.len() % 16 != 0 {
        Err(
            Error::MalformedPayload { code: p.code, reason: "encrypted DATA must be whole blocks" },
        )
    } else {
        match cipher::unpad(
            cipher::cbc_decrypt(s.keys.s_enc, cipher::complement(icv(s, dir)), p.data),
        ) {
            Some(d) => Ok(d),
            None => Err(
                Error::MalformedPayload { code: p.code, reason: "encrypted DATA is badly padded" },
            ),
        }
    }
}

/// What the secured frame `raw`, which says `p`, brings: the plaintext of its DATA and
/// the session that it leaves behind. The MAC is checked before DATA is looked at.
pub open spec fn unseal_frame(s: SecureView, p: PacketView, raw: Seq<u8>) -> Result<
    (SecureView, Seq<u8>),
    Error,
> {
    match p.scb {
        None => Err(Error::SecureSession(SecureSessionError::NotSecure)),
        Some(scb) => if !scb.ty.spec_has_mac() {
            Err(Error::BadSecurityBlock(scb.ty.spec_byte()))
        } else {
            let dir = direction_of(scb.ty);
            let covered = raw.take(raw.len() - codec::trailer_len(p.ctrl) - MAC_LEN);
            let mac = mac_of(s, dir, covered);
            if p.mac != Some(mac.take(4)) {
                Err(Error::SecureSession(SecureSessionError::BadMac))
            } else {
                match open_data(s, p, dir, scb.ty is Scs17 || scb.ty is Scs18) {
                    Err(e) => Err(e),
                    Ok(d) => Ok((advance(s, dir, mac), d)),
                }
            }
        },
    }
}

/// The peer whose session is `s` takes `raw` for an authentic frame with plaintext
/// `data`, and is then at `t`.
pub open spec fn opens_to(s: SecureView, raw: Seq<u8>, t: SecureView, data: Seq<u8>) -> bool {
    match codec::parse_frame(raw) {
        Ok((p, used)) => used == raw.len() && unseal_frame(s, p, raw) == Ok::<
            (SecureView, Seq<u8>),
            Error,
        >((t, data)),
        Err(_) => false,
    }
}

/// What a sealed frame says.
pub proof fn lemma_sealed_frame(
    s: SecureView,
    addr: Address,
    sqn: Sqn,
    dir: Direction,
    encrypt: bool,
    code: u8,
    data: Seq<u8>,
) -> (q: PacketView)
    requires
        seal_frame(s, addr, sqn, dir, encrypt, code, data) is Ok,
    ensures
        ({
            let (t, raw) = seal_frame(s, addr, sqn, dir, encrypt, code, data)->Ok_0;
            let p = unsigned(s, addr, sqn, dir, encrypt, code, data);
            &&& codec::frame_well_formed(q)
            &&& raw == codec::frame_bytes(q)
            &&& q == (PacketView { mac: q.mac, ..p })
            &&& raw.take(raw.len() - 2 - MAC_LEN) == codec::frame_prefix(p, MAC_LEN as int)
            &&& codec::parse_frame(raw) == Ok::<(PacketView, int), Error>((q, raw.len() as int))
            &&& q.mac == Some(
                mac_of(s, dir, codec::frame_prefix(p, MAC_LEN as int)).take(4),
            )
        }),
{
    let (t, raw) = seal_frame(s, addr, sqn, dir, encrypt, code, data)->Ok_0;
    let p = unsigned(s, addr, sqn, dir, encrypt, code, data);
    let prefix = codec::frame_prefix(p, MAC_LEN as int);
    let mac = mac_of(s, dir, prefix);
    let q = PacketView { mac: Some(mac.take(4)), ..p };
    cipher::lemma_mac_len(s.keys.s_mac1, s.keys.s_mac2, icv(s, dir), cipher::mac_input(prefix));
    assert(codec::frame_well_formed(q));
    codec::law_frame_round_trip(q, Seq::empty());
    assert(raw + Seq::<u8>::empty() =~= raw);
    assert(codec::frame_prefix(q, 4) == prefix);
    assert(raw.take(raw.len() - 2 - MAC_LEN) =~= prefix);
    q
}

/// Sealing keeps a session well formed.
pub proof fn lemma_sealed_session(
    s: SecureView,
    addr: Address,
    sqn: Sqn,
    dir: Direction,
    encrypt: bool,
    code: u8,
    data: Seq<u8>,
)
    requires
        s.well_formed(),
    ensures
        seal_frame(s, addr, sqn, dir, encrypt, code, data) matches Ok((t, _)) ==> t.well_formed(),
{
    let p = unsigned(s, addr, sqn, dir, encrypt, code, data);
    let prefix = codec::frame_prefix(p, MAC_LEN as int);
    cipher::lemma_mac_len(s.keys.s_mac1, s.keys.s_mac2, icv(s, dir), cipher::mac_input(prefix));
}

/// A sealed frame is opened by a peer at the same session, provided that decryption
/// undoes encryption on it.
proof fn lemma_sealed_opens(
    s: SecureView,
    addr: Address,
    sqn: Sqn,
    dir: Direction,
    encrypt: bool,
    code: u8,
    data: Seq<u8>,
)
    requires
        s.well_formed(),
        seal_frame(s, addr, sqn, dir, encrypt, code, data) is Ok,
        encrypt ==> cipher::cbc_decrypt(
            s.keys.s_enc,
            cipher::complement(icv(s, dir)),
            wire_data(s, dir, encrypt, data),
        ) == cipher::pad(data),
    ensures
        ({
            let (t, raw) = seal_frame(s, addr, sqn, dir, encrypt, code, data)->Ok_0;
            opens_to(s, raw, t, data)
        }),
{
    let q = lemma_sealed_frame(s, addr, sqn, dir, encrypt, code, data);
    cipher::law_padding_round_trip(data);
    cipher::lemma_cbc_len(s.keys.s_enc, cipher::complement(icv(s, dir)), cipher::pad(data));
    if !encrypt {
        assert(data =~= Seq::<u8>::empty());
    }
}

/// A frame sealed without DATA is opened by a peer at the same session, and leaves both
/// ends at the same session again.
pub proof fn law_mac_only_frame_opens(
    s: SecureView,
    addr: Address,
    sqn: Sqn,
    dir: Direction,
    code: u8,
)
    requires
        s.well_formed(),
    ensures
        ({
            let sealed = seal_frame(s, addr, sqn, dir, false, code, Seq::empty());
            &&& sealed is Ok
            &&& opens_to(s, sealed->Ok_0.1, sealed->Ok_0.0, Seq::empty())
        }),
{
    lemma_sealed_opens(s, addr, sqn, dir, false, code, Seq::empty());
}

/// Length of DATA on the wire, and of the frame.
proof fn lemma_sealed_len(
    s: SecureView,
    addr: Address,
    sqn: Sqn,
    dir: Direction,
    code: u8,
    data: Seq<u8>,
)
    ensures
        ({
            let p = unsigned(s, addr, sqn, dir, data.len() > 0, code, data);
            &&& p.data.len() == if data.len() > 0 {
                16 * (data.len() / 16 + 1)
            } else {
                0
            }
            &&& codec::frame_len(p, MAC_LEN as int) == 14 + p.data.len()
            &&& codec::frame_prefix(p, MAC_LEN as int).len() == 8 + p.data.len()
        }),
{
    let encrypt = data.len() > 0;
    let p = unsigned(s, addr, sqn, dir, encrypt, code, data);
    if encrypt {
        cipher::law_padding_round_trip(data);
        cipher::lemma_cbc_len(s.keys.s_enc, cipher::complement(icv(s, dir)), cipher::pad(data));
        assert(cipher::pad(data).len() == 16 * (data.len() / 16 + 1));
    }
    assert(codec::scb_bytes(p.scb).len() == 2);
}

/// A message can be sealed exactly when its frame fits the two-byte LEN field: fourteen
/// bytes round DATA, which is empty or padded to whole blocks. The frame says who sends it,
/// to whom and under which number, whether there is DATA, and the code; it ends in the first
/// four bytes of the MAC that the session goes on with. Nothing else of the session changes.
pub proof fn law_message_is_sealed(
    s: SecureView,
    addr: Address,
    sqn: Sqn,
    dir: Direction,
    code: u8,
    data: Seq<u8>,
)
    ensures
        ({
            let blocks = if data.len() > 0 {
                16 * (data.len() / 16 + 1)
            } else {
                0
            };
            match seal_frame(s, addr, sqn, dir, data.len() > 0, code, data) {
                Ok((t, raw)) => {
                    &&& raw.len() == 14 + blocks
                    &&& raw.len() <= 65535
                    &&& codec::parse_frame(raw) matches Ok((q, used)) && {
                        &&& used == raw.len()
                        &&& q.addr == addr
                        &&& q.ctrl.sqn == sqn
                        &&& q.ctrl.flags.use_crc
                        &&& q.scb matches Some(scb) && {
                            &&& scb.data.len() == 0
                            &&& match dir {
                                Direction::AcuToPd => if data.len() > 0 {
                                    scb.ty is Scs17
                                } else {
                                    scb.ty is Scs15
                                },
                                Direction::PdToAcu => if data.len() > 0 {
                                    scb.ty is Scs18
                                } else {
                                    scb.ty is Scs16
                                },
                            }
                        }
                        &&& q.code == code
                        &&& q.data.len() == blocks
                        &&& q.mac == Some(
                            (match dir {
                                Direction::AcuToPd => t.c_mac,
                                Direction::PdToAcu => t.r_mac,
                            }).take(4),
                        )
                    }
                    &&& t.scbk == s.scbk
                    &&& t.keys == s.keys
                    &&& match dir {
                        Direction::AcuToPd => t.r_mac == s.r_mac,
                        Direction::PdToAcu => t.c_mac == s.c_mac,
                    }
                },
                Err(e) => {
                    &&& 14 + blocks > 65535
                    &&& e == Error::PayloadTooLarge { len: blocks as usize }
                },
            }
        }),
{
    let encrypt = data.len() > 0;
    let p = unsigned(s, addr, sqn, dir, encrypt, code, data);
    lemma_sealed_len(s, addr, sqn, dir, code, data);
    let sealed = seal_frame(s, addr, sqn, dir, encrypt, code, data);
    if sealed is Ok {
        let q = lemma_sealed_frame(s, addr, sqn, dir, encrypt, code, data);
        let raw = sealed->Ok_0.1;
        assert(raw.len() == 14 + p.data.len()) by {
            let prefix = codec::frame_prefix(p, MAC_LEN as int);
            assert(raw.take(raw.len() - 2 - MAC_LEN).len() == prefix.len());
        }
    }
}

/// What a sealed frame is made of. The last MAC of the other direction is what a message
/// chains on: its complement is the first chaining block of the encryption of the padded
/// DATA, and the MAC over everything before it begins with it. The session goes on with that
/// MAC.
pub proof fn law_sealed_frame_is_chained(
    s: SecureView,
    addr: Address,
    sqn: Sqn,
    dir: Direction,
    code: u8,
    data: Seq<u8>,
)
    ensures
        seal_frame(s, addr, sqn, dir, data.len() > 0, code, data) matches Ok((t, raw)) ==> {
            let chained = match dir {
                Direction::AcuToPd => s.r_mac,
                Direction::PdToAcu => s.c_mac,
            };
            let q = codec::parse_frame(raw)->Ok_0.0;
            &&& data.len() > 0 ==> q.data == cipher::cbc_encrypt(
                s.keys.s_enc,
                cipher::complement(chained),
                cipher::pad(data),
            )
            &&& (match dir {
                Direction::AcuToPd => t.c_mac,
                Direction::PdToAcu => t.r_mac,
            }) == cipher::message_mac(
                s.keys.s_mac1,
                s.keys.s_mac2,
                chained,
                raw.take(raw.len() - 6),
            )
        },
{
    let encrypt = data.len() > 0;
    if seal_frame(s, addr, sqn, dir, encrypt, code, data) is Ok {
        let q = lemma_sealed_frame(s, addr, sqn, dir, encrypt, code, data);
    }
}

/// What it takes for a frame to open under a session, and all that it takes: a security block
/// of a secured type, the first four bytes of the MAC that the session makes of everything
/// before it, chained on the last MAC of the other direction, and either no DATA, where the
/// type says so, or DATA in whole blocks that decrypts to something padded. The session then
/// goes on with that MAC, and nothing else of it changes.
pub proof fn law_opening_is_chained(s: SecureView, p: PacketView, raw: Seq<u8>)
    ensures
        ({
            let ty = p.scb->0.ty;
            let trailer = if p.ctrl.flags.use_crc {
                2int
            } else {
                1
            };
            let by_acu = ty is Scs15 || ty is Scs17;
            let bare = ty is Scs15 || ty is Scs16;
            let chained = if by_acu {
                s.r_mac
            } else {
                s.c_mac
            };
            let mac = cipher::message_mac(
                s.keys.s_mac1,
                s.keys.s_mac2,
                chained,
                raw.take(raw.len() - trailer - 4),
            );
            let plain = cipher::unpad(
                cipher::cbc_decrypt(s.keys.s_enc, cipher::complement(chained), p.data),
            );
            &&& unseal_frame(s, p, raw) is Ok <==> {
                &&& p.scb is Some
                &&& ty is Scs15 || ty is Scs16 || ty is Scs17 || ty is Scs18
                &&& p.mac == Some(mac.take(4))
                &&& if bare {
                    p.data.len() == 0
                } else {
                    p.data.len() > 0 && p.data.len() % 16 == 0 && plain is Some
                }
            }
            &&& unseal_frame(s, p, raw) matches Err(e) ==> if p.scb is None {
                e == Error::SecureSession(SecureSessionError::NotSecure)
            } else if !(ty is Scs15 || ty is Scs16 || ty is Scs17 || ty is Scs18) {
                e == Error::BadSecurityBlock(ty.spec_byte())
            } else if p.mac != Some(mac.take(4)) {
                e == Error::SecureSession(SecureSessionError::BadMac)
            } else if bare {
                e == Error::SecureSession(SecureSessionError::PlaintextData)
            } else {
                e is MalformedPayload && e->MalformedPayload_code == p.code
            }
            &&& unseal_frame(s, p, raw) matches Ok((t, data)) ==> {
                &&& t.scbk == s.scbk
                &&& t.keys == s.keys
                &&& if by_acu {
                    t.c_mac == mac && t.r_mac == s.r_mac
                } else {
                    t.r_mac == mac && t.c_mac == s.c_mac
                }
                &&& if bare {
                    data.len() == 0
                } else {
                    plain == Some(data)
                }
            }
        }),
{
}

/// DATA never travels in the clear: without encryption a message with DATA is not sealed,
/// and a frame of a type without encryption opens only if it carries none.
pub proof fn law_no_plaintext_data(
    s: SecureView,
    addr: Address,
    sqn: Sqn,
    dir: Direction,
    code: u8,
    data: Seq<u8>,
    p: PacketView,
    raw: Seq<u8>,
)
    ensures
        data.len() > 0 ==> seal_frame(s, addr, sqn, dir, false, code, data) == Err::<
            (SecureView, Seq<u8>),
            Error,
        >(Error::SecureSession(SecureSessionError::PlaintextData)),
        (p.scb matches Some(scb) && (scb.ty is Scs15 || scb.ty is Scs16) && p.data.len() > 0)
            ==> unseal_frame(s, p, raw) is Err,
{
}

/// The MAC is judged before DATA is: a frame of a type that carries a MAC, with a wrong one,
/// is refused for the MAC, whatever its DATA is.
pub proof fn law_mac_is_checked_first(s: SecureView, p: PacketView, raw: Seq<u8>)
    ensures
        ({
            let ty = p.scb->0.ty;
            let covered = raw.take(raw.len() - codec::trailer_len(p.ctrl) - MAC_LEN);
            p.scb is Some && ty.spec_has_mac() && p.mac != Some(
                mac_of(s, direction_of(ty), covered).take(4),
            ) ==> unseal_frame(s, p, raw) == Err::<(SecureView, Seq<u8>), Error>(
                Error::SecureSession(SecureSessionError::BadMac),
            )
        }),
{
}

/// Seal a message. `encrypt` has to be set when there is DATA. The session moves on, and
/// a peer that is where the session was opens the frame to `data` and moves to the same
/// place. On an error the session stays as it was.
pub fn seal(
    session: &mut Session<Secure>,
    addr: Address,
    sqn: Sqn,
    dir: Direction,
    encrypt: bool,
    code: u8,
    data: &[u8],
) -> (r: Result<Vec<u8>, Error>)
    ensures
        match seal_frame(old(session)@, addr, sqn, dir, encrypt, code, data@) {
            Err(e) => r == Err::<Vec<u8>, Error>(e) && final(session)@ == old(session)@,
            Ok((t, raw)) => {
                &&& r is Ok
                &&& r->Ok_0@ == raw
                &&& final(session)@ == t
                &&& opens_to(old(session)@, raw, t, data@)
            },
        },
{
    if !encrypt && data.len() > 0 {
        return Err(Error::SecureSession(SecureSessionError::PlaintextData));
    }
    let chained: [u8; 16] = match dir {
        Direction::AcuToPd => session.r_mac(),
        Direction::PdToAcu => session.c_mac(),
    };
    let ty = match dir {
        Direction::AcuToPd => if encrypt {
            ScsType::Scs17
        } else {
            ScsType::Scs15
        },
        Direction::PdToAcu => if encrypt {
            ScsType::Scs18
        } else {
            ScsType::Scs16
        },
    };
    let wire: Vec<u8> = if encrypt {
        session.encrypt(&chained, data)
    } else {
        Vec::new()
    };
    let none: [u8; 0] = [];
    let builder = PacketBuilder {
        addr,
        ctrl: ControlByte::new(sqn, CtrlFlags { use_crc: true, has_scb: true }),
        scb: Some(Scb::new(ty, none)),
        code,
        data: wire,
    };
    assert(none@ =~= Seq::<u8>::empty());
    assert(builder@ == unsigned(old(session)@, addr, sqn, dir, encrypt, code, data@));
    let prefix = match builder.encode_prefix(MAC_LEN) {
        Ok(prefix) => prefix,
        Err(e) => {
            return Err(e);
        },
    };
    let mac: [u8; 16] = session.mac(&chained, prefix.as_slice());
    let mut body = prefix;
    append(&mut body, range(mac.as_slice(), 0, MAC_LEN));
    assert(mac@.subrange(0, 4) =~= mac@.take(4));
    match dir {
        Direction::AcuToPd => session.set_c_mac(mac),
        Direction::PdToAcu => session.set_r_mac(mac),
    }
    proof {
        old(session).lemma_well_formed();
        lemma_sealed_opens(old(session)@, addr, sqn, dir, encrypt, code, data@);
    }
    Ok(append_trailer(body, true))
}

/// A frame that could not be opened, with the session as it is left.
#[derive(Debug)]
pub struct UnsealError {
    /// The session, disconnected.
    pub session: Session<Disconnected>,
    /// What was wrong.
    pub error: Error,
}

/// Open the secured frame `raw`, which `parsed` is the parse of. Any failure leaves the
/// session disconnected.
pub fn unseal(session: Session<Secure>, parsed: &ParsedPacket<'_>, raw: &[u8]) -> (r: Result<
    (Session<Secure>, Vec<u8>),
    UnsealError,
>)
    requires
        codec::parse_frame(raw@) == Ok::<(PacketView, int), Error>((parsed@, raw@.len() as int)),
    ensures
        match unseal_frame(session@, parsed@, raw@) {
            Ok((t, data)) => r is Ok && r->Ok_0.0@ == t && r->Ok_0.1@ == data,
            Err(e) => r is Err && r->Err_0.error == e && r->Err_0.session@ == session@.scbk,
        },
{
    let ty = match parsed.scb {
        Some(scb) => scb.ty,
        None => {
            return Err(
                UnsealError {
                    session: session.reset(),
                    error: Error::SecureSession(SecureSessionError::NotSecure),
                },
            );
        },
    };
    let (dir, encrypted) = match ty {
        ScsType::Scs15 => (Direction::AcuToPd, false),
        ScsType::Scs16 => (Direction::PdToAcu, false),
        ScsType::Scs17 => (Direction::AcuToPd, true),
        ScsType::Scs18 => (Direction::PdToAcu, true),
        _ => {
            return Err(
                UnsealError {
                    session: session.reset(),
                    error: Error::BadSecurityBlock(ty.as_byte()),
                },
            );
        },
    };
    let chained: [u8; 16] = match dir {
        Direction::AcuToPd => session.r_mac(),
        Direction::PdToAcu => session.c_mac(),
    };
    proof {
        codec::law_parsed_is_well_formed(raw@);
    }
    let trailer: usize = if parsed.ctrl.flags.use_crc {
        2
    } else {
        1
    };
    let covered = range(raw, 0, raw.len() - trailer - MAC_LEN);
    assert(covered@ =~= raw@.take(raw@.len() - trailer - MAC_LEN));
    let mac: [u8; 16] = session.mac(&chained, covered);
    let sent = match parsed.mac {
        Some(m) => m,
        None => range(raw, 0, 0),
    };
    let authentic = bytes_equal(range(mac.as_slice(), 0, MAC_LEN), sent);
    assert(mac@.subrange(0, 4) =~= mac@.take(4));
    if !authentic {
        return Err(
            UnsealError {
                session: session.reset(),
                error: Error::SecureSession(SecureSessionError::BadMac),
            },
        );
    }
    let data: Vec<u8> = if !encrypted {
        if parsed.data.len() > 0 {
            return Err(
                UnsealError {
                    session: session.reset(),
                    error: Error::SecureSession(SecureSessionError::PlaintextData),
                },
            );
        }
        Vec::new()
    } else {
        if parsed.data.len() == 0 || parsed.data.len() % 16 != 0 {
            return Err(
                UnsealError {
                    session: session.reset(),
                    error: Error::MalformedPayload {
                        code: parsed.code,
                        reason: "encrypted DATA must be whole blocks",
                    },
                },
            );
        }
        match session.decrypt(&chained, parsed.data) {
            Some(d) => d,
            None => {
                return Err(
                    UnsealError {
                        session: session.reset(),
                        error: Error::MalformedPayload {
                            code: parsed.code,
                            reason: "encrypted DATA is badly padded",
                        },
                    },
                );
            },
        }
    };
    let mut session = session;
    match dir {
        Direction::AcuToPd => session.set_c_mac(mac),
        Direction::PdToAcu => session.set_r_mac(mac),
    }
    Ok((session, data))
}

} // verus!
