//! Writing and parsing of whole frames.

use vstd::prelude::*;

use crate::bytes;
use crate::bytes::{append, range};
use crate::error::Error;
use crate::packet::control;
use crate::packet::control::{Address, ControlByte, CtrlFlags};
use crate::packet::scb;
use crate::packet::scb::{Scb, ScbRef, ScbView, ScsType};
use crate::packet::trailer;
use crate::packet::trailer::{checksum_of, crc16_of};
use crate::SOM;

verus! {

/// SOM, ADDR, LEN (two bytes) and CTRL.
pub const HEADER_LEN: usize = 5;

/// Bytes of a MAC that go on the wire.
pub const MAC_LEN: usize = 4;

/// Largest frame that the two-byte LEN field can announce.
pub const MAX_FRAME_LEN: usize = 0xffff;

/// What a frame says.
#[verifier::ext_equal]
pub struct PacketView {
    /// ADDR.
    pub addr: Address,
    /// CTRL.
    pub ctrl: ControlByte,
    /// Security block, if there is one.
    pub scb: Option<ScbView>,
    /// Command or reply code.
    pub code: u8,
    /// DATA, as it stands on the wire.
    pub data: Seq<u8>,
    /// MAC, on frames of the types that carry one.
    pub mac: Option<Seq<u8>>,
}

/// Number of trailer bytes.
pub open spec fn trailer_len(ctrl: ControlByte) -> int {
    if ctrl.flags.use_crc {
        2
    } else {
        1
    }
}

/// Low and high byte of a 16-bit number.
pub open spec fn le16(n: int) -> Seq<u8> {
    seq![(n % 256) as u8, (n / 256) as u8]
}

/// Trailer of a frame whose other bytes are `body`.
pub open spec fn trailer_bytes(use_crc: bool, body: Seq<u8>) -> Seq<u8> {
    if use_crc {
        le16(trailer::crc16(body) as int)
    } else {
        seq![trailer::checksum(body)]
    }
}

/// A security block on the wire.
pub open spec fn scb_bytes(scb: Option<ScbView>) -> Seq<u8> {
    match scb {
        Some(s) => seq![(2 + s.data.len()) as u8, s.ty.spec_byte()] + s.data,
        None => Seq::empty(),
    }
}

/// Length of a frame with a MAC of `mac_len` bytes.
pub open spec fn frame_len(p: PacketView, mac_len: int) -> int {
    HEADER_LEN + scb_bytes(p.scb).len() + 1 + p.data.len() + mac_len + trailer_len(p.ctrl)
}

/// The frame up to and including DATA, when a MAC of `mac_len` bytes follows. The
/// security-block bit of CTRL tells whether there is a security block.
pub open spec fn frame_prefix(p: PacketView, mac_len: int) -> Seq<u8> {
    let ctrl = ControlByte {
        sqn: p.ctrl.sqn,
        flags: CtrlFlags { use_crc: p.ctrl.flags.use_crc, has_scb: p.scb is Some },
    };
    seq![SOM, p.addr.byte] + le16(frame_len(p, mac_len)) + seq![ctrl.spec_byte()] + scb_bytes(p.scb)
        + seq![p.code] + p.data
}

/// A frame of prefix and MAC, with its trailer.
pub open spec fn close_frame(use_crc: bool, body: Seq<u8>) -> Seq<u8> {
    body + trailer_bytes(use_crc, body)
}

/// The whole frame that says `p`.
pub open spec fn frame_bytes(p: PacketView) -> Seq<u8> {
    let mac = match p.mac {
        Some(m) => m,
        None => Seq::empty(),
    };
    close_frame(p.ctrl.flags.use_crc, frame_prefix(p, mac.len() as int) + mac)
}

/// Whether a frame with a MAC of `mac_len` bytes can be written, and if not, why.
pub open spec fn frame_fits(p: PacketView, mac_len: int) -> Result<(), Error> {
    if p.scb matches Some(s) && s.data.len() > 253 {
        Err(Error::PayloadTooLarge { len: p.scb->0.data.len() as usize })
    } else if frame_len(p, mac_len) > MAX_FRAME_LEN {
        Err(Error::PayloadTooLarge { len: p.data.len() as usize })
    } else {
        Ok(())
    }
}

/// The frame without a MAC that says `p`, or why there is none.
pub open spec fn encode_frame(p: PacketView) -> Result<Seq<u8>, Error> {
    if p.scb matches Some(s) && s.ty.spec_has_mac() {
        Err(Error::BadSecurityBlock(p.scb->0.ty.spec_byte()))
    } else {
        match frame_fits(p, 0) {
            Err(e) => Err(e),
            Ok(_) => Ok(frame_bytes(PacketView { mac: None, ..p })),
        }
    }
}

/// Fields of the complete frame `f` whose trailer starts at `end`.
pub open spec fn frame_fields(f: Seq<u8>, ctrl: ControlByte, end: int) -> Result<
    PacketView,
    Error,
> {
    let addr = Address { byte: f[1] };
    let scb_len = f[5] as int;
    if !ctrl.flags.has_scb {
        Ok(
            PacketView {
                addr,
                ctrl,
                scb: None,
                code: f[5],
                data: f.subrange(6, end),
                mac: None,
            },
        )
    } else if scb_len < 2 || 6 + scb_len > end {
        Err(Error::BadLength(f.len() as usize))
    } else {
        match ScsType::spec_from_byte(f[6]) {
            Err(e) => Err(e),
            Ok(ty) => {
                let mac_len = if ty.spec_has_mac() {
                    MAC_LEN as int
                } else {
                    0
                };
                if 6 + scb_len + mac_len > end {
                    Err(Error::BadLength(f.len() as usize))
                } else {
                    Ok(
                        PacketView {
                            addr,
                            ctrl,
                            scb: Some(ScbView { ty, data: f.subrange(7, 5 + scb_len) }),
                            code: f[5 + scb_len],
                            data: f.subrange(6 + scb_len, end - mac_len),
                            mac: if ty.spec_has_mac() {
                                Some(f.subrange(end - mac_len, end))
                            } else {
                                None
                            },
                        },
                    )
                }
            },
        }
    }
}

/// What the complete frame `f` says: the trailer is checked first, then the fields are
/// taken apart.
pub open spec fn parse_whole(f: Seq<u8>) -> Result<PacketView, Error> {
    let ctrl = ControlByte::spec_from_byte(f[4]);
    let end = f.len() - trailer_len(ctrl);
    let body = f.take(end);
    if ctrl.flags.use_crc {
        let got = (f[end] as int + 256 * f[end + 1]) as u16;
        let expected = trailer::crc16(body);
        if got != expected {
            Err(Error::BadCrc { expected, got })
        } else {
            frame_fields(f, ctrl, end)
        }
    } else {
        let got = f[end];
        let expected = trailer::checksum(body);
        if got != expected {
            Err(Error::BadChecksum { expected, got })
        } else {
            frame_fields(f, ctrl, end)
        }
    }
}

/// The frame at the front of `buf` with its length, or why there is none.
pub open spec fn parse_frame(buf: Seq<u8>) -> Result<(PacketView, int), Error> {
    let total = buf[2] as int + 256 * buf[3];
    if buf.len() > 0 && buf[0] != SOM {
        Err(Error::BadSom(buf[0]))
    } else if buf.len() < HEADER_LEN {
        Err(Error::Truncated { have: buf.len() as usize, need: HEADER_LEN })
    } else if total < HEADER_LEN + 1 + trailer_len(ControlByte::spec_from_byte(buf[4])) {
        Err(Error::BadLength(total as usize))
    } else if buf.len() < total {
        Err(Error::Truncated { have: buf.len() as usize, need: total as usize })
    } else {
        match parse_whole(buf.take(total)) {
            Ok(p) => Ok((p, total)),
            Err(e) => Err(e),
        }
    }
}

/// A frame taken apart, borrowing the buffer that it lies in.
#[derive(Debug, Clone, Copy, PartialEq, Eq)]
pub struct ParsedPacket<'a> {
    /// ADDR.
    pub addr: Address,
    /// CTRL.
    pub ctrl: ControlByte,
    /// Security block, if there is one.
    pub scb: Option<ScbRef<'a>>,
    /// Command or reply code.
    pub code: u8,
    /// DATA, as it stands on the wire.
    pub data: &'a [u8],
    /// MAC, on frames of the types that carry one.
    pub mac: Option<&'a [u8]>,
}

impl View for ParsedPacket<'_> {
    type V = PacketView;

    open spec fn view(&self) -> PacketView {
        PacketView {
            addr: self.addr,
            ctrl: self.ctrl,
            scb: match self.scb {
                Some(s) => Some(s@),
                None => None,
            },
            code: self.code,
            data: self.data@,
            mac: match self.mac {
                Some(m) => Some(m@),
                None => None,
            },
        }
    }
}

/// Outcome of [`ParsedPacket::parse`] in terms of contents.
pub open spec fn parsed_view(r: Result<(ParsedPacket<'_>, usize), Error>) -> Result<
    (PacketView, int),
    Error,
> {
    match r {
        Ok((p, used)) => Ok((p@, used as int)),
        Err(e) => Err(e),
    }
}

impl<'a> ParsedPacket<'a> {
    /// Parse the frame at the front of `buf`. Returns it with the number of bytes that
    /// it takes up.
    pub fn parse(buf: &'a [u8]) -> (r: Result<(ParsedPacket<'a>, usize), Error>)
        ensures
            parsed_view(r) == parse_frame(buf@),
    {
        let have: usize = buf.len();
        if have > 0 && buf[0] != SOM {
            return Err(Error::BadSom(buf[0]));
        }
        if have < HEADER_LEN {
            return Err(Error::Truncated { have, need: HEADER_LEN });
        }
        let total: usize = buf[2] as usize + 256 * (buf[3] as usize);
        let ctrl = ControlByte::from_byte(buf[4]);
        let trailer: usize = if ctrl.flags.use_crc {
            2
        } else {
            1
        };
        if total < HEADER_LEN + 1 + trailer {
            return Err(Error::BadLength(total));
        }
        if have < total {
            return Err(Error::Truncated { have, need: total });
        }
        let f = range(buf, 0, total);
        assert(f@ =~= buf@.take(total as int));
        let end: usize = total - trailer;
        let body = range(f, 0, end);
        assert(body@ =~= f@.take(end as int));
        if ctrl.flags.use_crc {
            let got: u16 = f[end] as u16 + 256 * (f[end + 1] as u16);
            let expected: u16 = crc16_of(body);
            if got != expected {
                return Err(Error::BadCrc { expected, got });
            }
        } else {
            let got: u8 = f[end];
            let expected: u8 = checksum_of(body);
            if got != expected {
                return Err(Error::BadChecksum { expected, got });
            }
        }
        match ParsedPacket::fields(f, ctrl, end) {
            Ok(p) => Ok((p, total)),
            Err(e) => Err(e),
        }
    }

    /// Take the fields of the complete frame `f` apart.
    fn fields(f: &'a [u8], ctrl: ControlByte, end: usize) -> (r: Result<ParsedPacket<'a>, Error>)
        requires
            6 <= end <= f@.len() <= MAX_FRAME_LEN,
        ensures
            match r {
                Ok(p) => Ok::<PacketView, Error>(p@) == frame_fields(f@, ctrl, end as int),
                Err(e) => Err::<PacketView, Error>(e) == frame_fields(f@, ctrl, end as int),
            },
    {
        let addr = Address { byte: f[1] };
        if !ctrl.flags.has_scb {
            return Ok(
                ParsedPacket {
                    addr,
                    ctrl,
                    scb: None,
                    code: f[5],
                    data: range(f, 6, end),
                    mac: None,
                },
            );
        }
        let scb_len: usize = f[5] as usize;
        if scb_len < 2 || 6 + scb_len > end {
            return Err(Error::BadLength(f.len()));
        }
        let ty = match ScsType::from_byte(f[6]) {
            Ok(ty) => ty,
            Err(e) => return Err(e),
        };
        let has_mac = ty.has_mac();
        let mac_len: usize = if has_mac {
            MAC_LEN
        } else {
            0
        };
        if 6 + scb_len + mac_len > end {
            return Err(Error::BadLength(f.len()));
        }
        Ok(
            ParsedPacket {
                addr,
                ctrl,
                scb: Some(ScbRef { ty, data: range(f, 7, 5 + scb_len) }),
                code: f[5 + scb_len],
                data: range(f, 6 + scb_len, end - mac_len),
                mac: if has_mac {
                    Some(range(f, end - mac_len, end))
                } else {
                    None
                },
            },
        )
    }
}

/// A frame to be written.
#[derive(Debug, Clone, PartialEq, Eq)]
pub struct PacketBuilder {
    /// ADDR.
    pub addr: Address,
    /// Sequence number and trailer choice. The security-block bit is set on the wire
    /// exactly when there is a block.
    pub ctrl: ControlByte,
    /// Security block, if there is one.
    pub scb: Option<Scb>,
    /// Command or reply code.
    pub code: u8,
    /// DATA, as it goes on the wire.
    pub data: Vec<u8>,
}

impl View for PacketBuilder {
    type V = PacketView;

    open spec fn view(&self) -> PacketView {
        PacketView {
            addr: self.addr,
            ctrl: self.ctrl,
            scb: scb::scb_view(self.scb),
            code: self.code,
            data: self.data@,
            mac: None,
        }
    }
}

impl PacketBuilder {
    /// Frame without security block.
    pub fn plain(addr: Address, ctrl: ControlByte, code: u8, data: Vec<u8>) -> (b: PacketBuilder)
        ensures
            b@ == (PacketView { addr, ctrl, scb: None, code, data: data@, mac: None }),
    {
        PacketBuilder { addr, ctrl, scb: None, code, data }
    }

    /// The frame up to and including DATA, when a MAC of `mac_len` bytes follows.
    pub fn encode_prefix(&self, mac_len: usize) -> (r: Result<Vec<u8>, Error>)
        requires
            mac_len <= MAC_LEN,
        ensures
            match frame_fits(self@, mac_len as int) {
                Err(e) => r == Err::<Vec<u8>, Error>(e),
                Ok(_) => r is Ok && r->Ok_0@ == frame_prefix(self@, mac_len as int),
            },
    {
        let scb_len: usize = match &self.scb {
            Some(s) => {
                if s.data.len() > 253 {
                    return Err(Error::PayloadTooLarge { len: s.data.len() });
                }
                s.data.len() + 2
            },
            None => 0,
        };
        if self.data.len() > MAX_FRAME_LEN {
            return Err(Error::PayloadTooLarge { len: self.data.len() });
        }
        let trailer: usize = if self.ctrl.flags.use_crc {
            2
        } else {
            1
        };
        let total: usize = HEADER_LEN + scb_len + 1 + self.data.len() + mac_len + trailer;
        if total > MAX_FRAME_LEN {
            return Err(Error::PayloadTooLarge { len: self.data.len() });
        }
        let ctrl = ControlByte::new(
            self.ctrl.sqn,
            CtrlFlags { use_crc: self.ctrl.flags.use_crc, has_scb: self.scb.is_some() },
        );
        let mut out: Vec<u8> = Vec::with_capacity(total);
        out.push(SOM);
        out.push(self.addr.byte);
        out.push((total % 256) as u8);
        out.push((total / 256) as u8);
        out.push(ctrl.as_byte());
        if let Some(s) = &self.scb {
            out.push(scb_len as u8);
            out.push(s.ty.as_byte());
            append(&mut out, s.data.as_slice());
        }
        out.push(self.code);
        append(&mut out, self.data.as_slice());
        assert(out@ =~= frame_prefix(self@, mac_len as int));
        Ok(out)
    }

    /// Write the frame. A block of a type that carries a MAC is refused.
    pub fn encode(&self) -> (r: Result<Vec<u8>, Error>)
        ensures
            bytes::vec_result(r) == encode_frame(self@),
    {
        if let Some(s) = &self.scb {
            if s.ty.has_mac() {
                return Err(Error::BadSecurityBlock(s.ty.as_byte()));
            }
        }
        match self.encode_prefix(0) {
            Err(e) => Err(e),
            Ok(prefix) => {
                assert(prefix@ + Seq::<u8>::empty() =~= prefix@);
                Ok(append_trailer(prefix, self.ctrl.flags.use_crc))
            },
        }
    }

    /// Write the frame with the MAC that `mac` computes from the bytes before it. A
    /// frame without a block of a type that carries a MAC is refused.
    pub fn encode_with_mac<F: FnOnce(&[u8]) -> [u8; 4]>(&self, mac: F) -> (r: Result<
        Vec<u8>,
        Error,
    >)
        requires
            forall|prefix: &[u8]| call_requires(mac, (prefix,)),
        ensures
            match self@.scb {
                None => r == Err::<Vec<u8>, Error>(
                    Error::SecureSession(crate::error::SecureSessionError::NotSecure),
                ),
                Some(s) => if !s.ty.spec_has_mac() {
                    r == Err::<Vec<u8>, Error>(Error::BadSecurityBlock(s.ty.spec_byte()))
                } else {
                    match frame_fits(self@, MAC_LEN as int) {
                        Err(e) => r == Err::<Vec<u8>, Error>(e),
                        Ok(_) => r is Ok && exists|prefix: &[u8], m: [u8; 4]|
                            {
                                &&& prefix@ == frame_prefix(self@, MAC_LEN as int)
                                &&& #[trigger] call_ensures(mac, (prefix,), m)
                                &&& r->Ok_0@ == frame_bytes(PacketView { mac: Some(m@), ..self@ })
                            },
                    }
                },
            },
    {
        match &self.scb {
            None => {
                return Err(Error::SecureSession(crate::error::SecureSessionError::NotSecure));
            },
            Some(s) => {
                if !s.ty.has_mac() {
                    return Err(Error::BadSecurityBlock(s.ty.as_byte()));
                }
            },
        }
        match self.encode_prefix(MAC_LEN) {
            Err(e) => Err(e),
            Ok(prefix) => {
                let m: [u8; 4] = mac(prefix.as_slice());
                let mut body = prefix;
                append(&mut body, m.as_slice());
                Ok(append_trailer(body, self.ctrl.flags.use_crc))
            },
        }
    }
}

/// Append the trailer to the bytes that it covers.
pub fn append_trailer(body: Vec<u8>, use_crc: bool) -> (f: Vec<u8>)
    ensures
        f@ == close_frame(use_crc, body@),
{
    let mut f = body;
    if use_crc {
        let crc: u16 = crc16_of(f.as_slice());
        f.push((crc % 256) as u8);
        f.push((crc / 256) as u8);
    } else {
        let sum: u8 = checksum_of(f.as_slice());
        f.push(sum);
    }
    assert(f@ =~= close_frame(use_crc, body@));
    f
}

/// `p` is something that a frame can say: a security block is announced exactly when it
/// is there, a MAC is there exactly when the block's type carries one, and the frame
/// fits.
pub open spec fn frame_well_formed(p: PacketView) -> bool {
    &&& p.ctrl.flags.has_scb == (p.scb is Some)
    &&& (p.mac is Some) == (p.scb is Some && p.scb->0.ty.spec_has_mac())
    &&& p.mac is Some ==> p.mac->0.len() == MAC_LEN
    &&& frame_fits(
        p,
        if p.mac is Some {
            MAC_LEN as int
        } else {
            0
        },
    ) is Ok
}

/// Where the fields of a frame prefix lie.
proof fn lemma_prefix_layout(p: PacketView, mac_len: int)
    requires
        p.ctrl.flags.has_scb == (p.scb is Some),
        0 <= mac_len,
        frame_fits(p, mac_len) is Ok,
    ensures
        ({
            let f = frame_prefix(p, mac_len);
            let total = frame_len(p, mac_len);
            let n = scb_bytes(p.scb).len() as int;
            &&& f.len() == 6 + n + p.data.len()
            &&& f[0] == SOM
            &&& f[1] == p.addr.byte
            &&& f[2] as int + 256 * f[3] == total
            &&& f[4] == p.ctrl.spec_byte()
            &&& f[5 + n] == p.code
            &&& f.subrange(6 + n, 6 + n + p.data.len()) == p.data
            &&& p.scb matches Some(s) ==> {
                &&& n == 2 + s.data.len()
                &&& f[5] == n
                &&& f[6] == s.ty.spec_byte()
                &&& f.subrange(7, 5 + n) == s.data
            }
        }),
{
    let f = frame_prefix(p, mac_len);
    let total = frame_len(p, mac_len);
    let n = scb_bytes(p.scb).len() as int;
    let head = seq![SOM, p.addr.byte] + le16(total) + seq![p.ctrl.spec_byte()];
    assert(p.ctrl == (ControlByte {
        sqn: p.ctrl.sqn,
        flags: CtrlFlags { use_crc: p.ctrl.flags.use_crc, has_scb: p.scb is Some },
    }));
    assert(f == head + scb_bytes(p.scb) + seq![p.code] + p.data);
    assert(head.len() == 5);
    assert(f.subrange(6 + n, 6 + n + p.data.len()) =~= p.data);
    if p.scb is Some {
        let s = p.scb->0;
        assert(f.subrange(7, 5 + n) =~= s.data);
    }
}

/// The trailer of a written frame is found to be right.
#[verifier::rlimit(40)]
proof fn lemma_trailer_round_trip(p: PacketView)
    requires
        frame_well_formed(p),
    ensures
        ({
            let f = frame_bytes(p);
            parse_whole(f) == frame_fields(f, p.ctrl, f.len() - trailer_len(p.ctrl))
        }),
{
    let mac = match p.mac {
        Some(m) => m,
        None => Seq::empty(),
    };
    let body = frame_prefix(p, mac.len() as int) + mac;
    let f = frame_bytes(p);
    let end = body.len() as int;
    lemma_prefix_layout(p, mac.len() as int);
    control::law_control_byte_round_trip(p.ctrl);
    assert(f[4] == frame_prefix(p, mac.len() as int)[4]);
    assert(f.take(end) =~= body);
    if p.ctrl.flags.use_crc {
        let crc = trailer::crc16(body);
        assert(f[end] == (crc as int % 256) as u8);
        assert(f[end + 1] == (crc as int / 256) as u8);
    } else {
        assert(f[end] == trailer::checksum(body));
    }
}

/// A complete frame of well-formed fields parses to them.
proof fn lemma_whole_round_trip(p: PacketView)
    requires
        frame_well_formed(p),
    ensures
        parse_whole(frame_bytes(p)) == Ok::<PacketView, Error>(p),
{
    let mac = match p.mac {
        Some(m) => m,
        None => Seq::empty(),
    };
    let prefix = frame_prefix(p, mac.len() as int);
    let f = frame_bytes(p);
    let end = prefix.len() + mac.len() as int;
    let n = scb_bytes(p.scb).len() as int;
    lemma_prefix_layout(p, mac.len() as int);
    lemma_trailer_round_trip(p);
    assert(f.len() - trailer_len(p.ctrl) == end);
    assert(forall|i: int| 0 <= i < prefix.len() ==> f[i] == prefix[i]);
    assert(f.subrange(6 + n, end - mac.len()) =~= prefix.subrange(6 + n, 6 + n + p.data.len()));
    assert(f.subrange(end - mac.len(), end) =~= mac);
    if p.scb is Some {
        let s = p.scb->0;
        scb::law_scs_type_round_trip(s.ty);
        assert(f.subrange(7, 5 + n) =~= prefix.subrange(7, 5 + n));
    }
}

/// A frame that was written is parsed back to what it said, whatever bytes follow it.
pub proof fn law_frame_round_trip(p: PacketView, rest: Seq<u8>)
    requires
        frame_well_formed(p),
    ensures
        parse_frame(frame_bytes(p) + rest) == Ok::<(PacketView, int), Error>(
            (p, frame_bytes(p).len() as int),
        ),
{
    let mac = match p.mac {
        Some(m) => m,
        None => Seq::empty(),
    };
    let f = frame_bytes(p);
    let total = f.len() as int;
    lemma_prefix_layout(p, mac.len() as int);
    lemma_whole_round_trip(p);
    control::law_control_byte_round_trip(p.ctrl);
    assert((f + rest).take(total) =~= f);
}

/// Parsing looks at no byte behind the frame: the frame alone parses to the same.
pub proof fn law_parse_is_local(buf: Seq<u8>)
    requires
        parse_frame(buf) is Ok,
    ensures
        ({
            let used = parse_frame(buf)->Ok_0.1;
            &&& HEADER_LEN < used <= buf.len()
            &&& parse_frame(buf.take(used)) == parse_frame(buf)
        }),
{
    let used = parse_frame(buf)->Ok_0.1;
    assert(buf.take(used).take(used) =~= buf.take(used));
}

/// What has been made of a frame does not change with the bytes that arrive behind it,
/// unless some of it was missing.
pub proof fn law_parse_is_final(buf: Seq<u8>, more: Seq<u8>)
    requires
        !(parse_frame(buf) matches Err(Error::Truncated { .. })),
    ensures
        parse_frame(buf + more) == parse_frame(buf),
{
    let all = buf + more;
    assert(all[0] == buf[0]);
    if buf.len() >= HEADER_LEN {
        let total = buf[2] as int + 256 * buf[3];
        assert(all[2] == buf[2] && all[3] == buf[3] && all[4] == buf[4]);
        if total <= buf.len() {
            assert(all.take(total) =~= buf.take(total));
        }
    }
}

/// A frame that has arrived in part is not taken for a whole one, nor for anything wrong.
pub proof fn law_part_of_frame_is_truncated(p: PacketView, n: int)
    requires
        frame_well_formed(p),
        0 <= n < frame_bytes(p).len(),
    ensures
        parse_frame(frame_bytes(p).take(n)) matches Err(Error::Truncated { .. }),
{
    let f = frame_bytes(p);
    law_frame_round_trip(p, Seq::empty());
    assert(f + Seq::<u8>::empty() =~= f);
    assert(n > 0 ==> f.take(n)[0] == f[0]);
}

/// Where everything stands in a frame: the start byte, the address, the length with its low
/// byte first, and the control byte with the number in its two lowest bits, the CRC bit and the
/// security-block bit; then the security block, if there is one, with its length and type;
/// then the code, DATA, the MAC, if there is one, and the trailer, of which a CRC has its low
/// byte first. The trailer covers all that stands before it.
pub proof fn law_frame_layout(p: PacketView)
    requires
        frame_well_formed(p),
    ensures
        ({
            let f = frame_bytes(p);
            let n = match p.scb {
                Some(s) => 2 + s.data.len() as int,
                None => 0,
            };
            let mac = match p.mac {
                Some(m) => m,
                None => Seq::empty(),
            };
            let end = 6 + n + p.data.len() + mac.len();
            &&& f[0] == 0x53
            &&& f[1] == p.addr.byte
            &&& f[2] + 256 * f[3] == f.len()
            &&& f[4] == p.ctrl.sqn.spec_value() + (if p.ctrl.flags.use_crc {
                4int
            } else {
                0
            }) + (if p.scb is Some {
                8int
            } else {
                0
            })
            &&& p.scb matches Some(s) ==> {
                &&& f[5] == n
                &&& f[6] == s.ty.spec_byte()
                &&& f.subrange(7, 5 + n) == s.data
            }
            &&& f[5 + n] == p.code
            &&& f.subrange(6 + n, 6 + n + p.data.len()) == p.data
            &&& f.subrange(6 + n + p.data.len(), end) == mac
            &&& if p.ctrl.flags.use_crc {
                &&& f.len() == end + 2
                &&& f[end] + 256 * f[end + 1] == trailer::crc16(f.take(end))
            } else {
                &&& f.len() == end + 1
                &&& f[end] == trailer::checksum(f.take(end))
            }
        }),
{
    let mac = match p.mac {
        Some(m) => m,
        None => Seq::empty(),
    };
    let prefix = frame_prefix(p, mac.len() as int);
    let body = prefix + mac;
    let f = frame_bytes(p);
    let end = body.len() as int;
    let n = scb_bytes(p.scb).len() as int;
    lemma_prefix_layout(p, mac.len() as int);
    assert(forall|i: int| 0 <= i < prefix.len() ==> f[i] == prefix[i]);
    assert(f.take(end) =~= body);
    assert(f.subrange(6 + n, 6 + n + p.data.len()) =~= prefix.subrange(
        6 + n,
        6 + n + p.data.len(),
    ));
    assert(f.subrange(6 + n + p.data.len(), end) =~= mac);
    if p.scb is Some {
        assert(f.subrange(7, 5 + n) =~= prefix.subrange(7, 5 + n));
    }
    if p.ctrl.flags.use_crc {
        let crc = trailer::crc16(body);
        assert(f[end] == (crc as int % 256) as u8);
        assert(f[end + 1] == (crc as int / 256) as u8);
    } else {
        assert(f[end] == trailer::checksum(body));
    }
}

/// A frame that is taken for one begins with the start byte, is all there, and is intact: its
/// trailer is the one that the bytes before it have. What it says stands in it.
pub proof fn law_parsed_frame_is_intact(buf: Seq<u8>)
    ensures
        parse_frame(buf) matches Ok((p, used)) ==> {
            let crc = buf[4] as int / 4 % 2 == 1;
            let end = if crc {
                used - 2
            } else {
                used - 1
            };
            let mac = match p.mac {
                Some(m) => m.len() as int,
                None => 0,
            };
            let n = match p.scb {
                Some(s) => 2 + s.data.len() as int,
                None => 0,
            };
            &&& buf[0] == 0x53
            &&& 7 <= used <= buf.len()
            &&& used == buf[2] + 256 * buf[3]
            &&& p.addr.byte == buf[1]
            &&& p.ctrl.sqn.spec_value() == buf[4] % 4
            &&& p.ctrl.flags.use_crc == crc
            &&& p.scb is Some <==> buf[4] as int / 8 % 2 == 1
            &&& p.scb matches Some(s) ==> {
                &&& buf[5] == n
                &&& s.ty.spec_byte() == buf[6]
                &&& s.data == buf.subrange(7, 5 + n)
            }
            &&& p.code == buf[5 + n]
            &&& p.data == buf.subrange(6 + n, end - mac)
            &&& p.mac is Some <==> p.scb is Some && (p.scb->0.ty is Scs15 || p.scb->0.ty is Scs16
                || p.scb->0.ty is Scs17 || p.scb->0.ty is Scs18)
            &&& p.mac matches Some(m) ==> m.len() == 4 && m == buf.subrange(end - 4, end)
            &&& if crc {
                buf[end] + 256 * buf[end + 1] == trailer::crc16(buf.take(end))
            } else {
                buf[end] == trailer::checksum(buf.take(end))
            }
        },
{
    if let Ok((p, used)) = parse_frame(buf) {
        let f = buf.take(used);
        let end = used - trailer_len(ControlByte::spec_from_byte(buf[4]));
        assert(f.take(end) =~= buf.take(end));
        assert(forall|i: int| 0 <= i < used ==> f[i] == buf[i]);
        if p.scb is Some {
            let n = f[5] as int;
            assert(f.subrange(7, 5 + n) =~= buf.subrange(7, 5 + n));
            assert(p.scb->0.data.len() == n - 2);
            if p.mac is Some {
                assert(f.subrange(6 + n, end - 4) =~= buf.subrange(6 + n, end - 4));
                assert(f.subrange(end - 4, end) =~= buf.subrange(end - 4, end));
            } else {
                assert(f.subrange(6 + n, end) =~= buf.subrange(6 + n, end));
            }
        } else {
            assert(f.subrange(6, end) =~= buf.subrange(6, end));
        }
    }
}

/// A frame that is all there but damaged is noticed by its trailer, whatever it says. One
/// that is too short for its header, or for the length that it announces, is incomplete; one
/// that announces less than a frame can have is refused, and so is anything that does not
/// begin with the start byte.
pub proof fn law_damage_is_noticed(buf: Seq<u8>)
    ensures
        ({
            let crc = buf[4] as int / 4 % 2 == 1;
            let least = if crc {
                8int
            } else {
                7
            };
            let total = buf[2] + 256 * buf[3];
            let end = if crc {
                total - 2
            } else {
                total - 1
            };
            let r = parse_frame(buf);
            let missing = |need: int|
                Err::<(PacketView, int), Error>(
                    Error::Truncated { have: buf.len() as usize, need: need as usize },
                );
            if buf.len() == 0 {
                r == missing(5)
            } else if buf[0] != 0x53 {
                r == Err::<(PacketView, int), Error>(Error::BadSom(buf[0]))
            } else if buf.len() < 5 {
                r == missing(5)
            } else if total < least {
                r == Err::<(PacketView, int), Error>(Error::BadLength(total as usize))
            } else if buf.len() < total {
                r == missing(total)
            } else if crc {
                let got = (buf[end] + 256 * buf[end + 1]) as u16;
                let expected = trailer::crc16(buf.take(end));
                got != expected ==> r == Err::<(PacketView, int), Error>(
                    Error::BadCrc { expected, got },
                )
            } else {
                let expected = trailer::checksum(buf.take(end));
                buf[end] != expected ==> r == Err::<(PacketView, int), Error>(
                    Error::BadChecksum { expected, got: buf[end] },
                )
            }
        }),
{
    let total = buf[2] as int + 256 * buf[3];
    let end = total - trailer_len(ControlByte::spec_from_byte(buf[4]));
    if buf.len() >= HEADER_LEN && buf.len() >= total && total >= 6 {
        let f = buf.take(total);
        assert(f.take(end) =~= buf.take(end));
        assert(forall|i: int| 0 <= i < total ==> f[i] == buf[i]);
    }
}

/// A frame that is all there and intact is taken, unless it announces a security block that
/// is none: one with a length that is too short for a block or leaves no room for the code
/// and, on the types that carry one, the MAC; or one of a type that does not exist.
pub proof fn law_intact_frame_is_taken(buf: Seq<u8>)
    requires
        buf.len() >= 5,
        buf[0] == 0x53,
        buf.len() >= buf[2] + 256 * buf[3],
    ensures
        ({
            let crc = buf[4] as int / 4 % 2 == 1;
            let total = buf[2] + 256 * buf[3];
            let end = if crc {
                total - 2
            } else {
                total - 1
            };
            let intact = if crc {
                buf[end] + 256 * buf[end + 1] == trailer::crc16(buf.take(end))
            } else {
                buf[end] == trailer::checksum(buf.take(end))
            };
            let n = buf[5] as int;
            let ty = buf[6];
            let r = parse_frame(buf);
            end >= 6 && intact ==> if buf[4] as int / 8 % 2 == 0 {
                r is Ok
            } else if n < 2 || 6 + n > end {
                r == Err::<(PacketView, int), Error>(Error::BadLength(total as usize))
            } else if ty < 0x11 || ty > 0x18 {
                r == Err::<(PacketView, int), Error>(Error::BadSecurityBlock(ty))
            } else if ty >= 0x15 && 10 + n > end {
                r == Err::<(PacketView, int), Error>(Error::BadLength(total as usize))
            } else {
                r is Ok
            }
        }),
{
    let total = buf[2] as int + 256 * buf[3];
    let end = total - trailer_len(ControlByte::spec_from_byte(buf[4]));
    if end >= 6 {
        let f = buf.take(total);
        assert(f.take(end) =~= buf.take(end));
        assert(forall|i: int| 0 <= i < total ==> f[i] == buf[i]);
    }
}

/// A packet without a MAC can be written exactly when its security block data fits the
/// block's length byte and the whole fits the two-byte LEN field. The frame is then as long
/// as its parts, and parses back to the packet, whatever follows it.
pub proof fn law_packet_is_written(p: PacketView, rest: Seq<u8>)
    requires
        p.mac is None,
        p.ctrl.flags.has_scb == (p.scb is Some),
        p.scb matches Some(s) ==> s.ty is Scs11 || s.ty is Scs12 || s.ty is Scs13 || s.ty is Scs14,
    ensures
        ({
            let block = match p.scb {
                Some(s) => s.data.len() as int,
                None => 0,
            };
            let size = 5 + (if p.scb is Some {
                2 + block
            } else {
                0
            }) + 1 + p.data.len() + if p.ctrl.flags.use_crc {
                2int
            } else {
                1
            };
            match encode_frame(p) {
                Ok(f) => {
                    &&& block <= 253
                    &&& size <= 65535
                    &&& f.len() == size
                    &&& parse_frame(f + rest) == Ok::<(PacketView, int), Error>((p, size))
                },
                Err(e) => {
                    &&& block > 253 || size > 65535
                    &&& e == Error::PayloadTooLarge {
                        len: (if block > 253 {
                            block
                        } else {
                            p.data.len() as int
                        }) as usize,
                    }
                },
            }
        }),
{
    if encode_frame(p) is Ok {
        assert(frame_well_formed(p));
        lemma_prefix_layout(p, 0);
        law_frame_round_trip(p, rest);
        assert(p == (PacketView { mac: None, ..p }));
    }
}

/// A frame that parses says something well formed.
pub proof fn law_parsed_is_well_formed(buf: Seq<u8>)
    requires
        parse_frame(buf) is Ok,
    ensures
        frame_well_formed(parse_frame(buf)->Ok_0.0),
{
}

} // verus!
