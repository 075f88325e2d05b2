//! Bus addresses, sequence numbers and the control byte.

use vstd::prelude::*;

use crate::error::Error;

verus! {

/// Address that every PD listens to, besides its own.
pub const BROADCAST_ADDR: u8 = 0x7f;

/// ADDR field of a frame: a seven-bit PD address, and the reply bit.
#[derive(Debug, Clone, Copy, PartialEq, Eq)]
pub struct Address {
    /// The field as it stands on the wire.
    pub byte: u8,
}

impl Address {
    /// Address of a command to PD `addr`.
    pub fn pd(addr: u8) -> (r: Result<Address, Error>)
        ensures
            r == command_address(addr),
    {
        if addr > BROADCAST_ADDR {
            return Err(Error::BadAddress(addr));
        }
        Ok(Address { byte: addr })
    }

    /// Address of a reply from PD `addr`.
    pub fn reply(addr: u8) -> (r: Result<Address, Error>)
        ensures
            r == reply_address(addr),
    {
        if addr > BROADCAST_ADDR {
            return Err(Error::BadAddress(addr));
        }
        Ok(Address { byte: addr + 0x80 })
    }

    /// The PD address without the reply bit.
    pub open spec fn spec_pd_addr(self) -> u8 {
        self.byte % 0x80
    }

    /// The PD address without the reply bit.
    pub fn pd_addr(&self) -> (a: u8)
        ensures
            a == self.spec_pd_addr(),
    {
        self.byte % 0x80
    }

    /// Whether the frame comes from a PD.
    pub fn is_reply(&self) -> (r: bool)
        ensures
            r == (self.byte >= 0x80),
    {
        self.byte >= 0x80
    }

    /// Whether every PD is addressed.
    pub fn is_broadcast(&self) -> (r: bool)
        ensures
            r == (self.spec_pd_addr() == BROADCAST_ADDR),
    {
        self.byte % 0x80 == BROADCAST_ADDR
    }
}

/// ADDR field of a command to PD `addr`.
pub open spec fn command_address(addr: u8) -> Result<Address, Error> {
    if addr > BROADCAST_ADDR {
        Err(Error::BadAddress(addr))
    } else {
        Ok(Address { byte: addr })
    }
}

/// ADDR field of a reply from PD `addr`.
pub open spec fn reply_address(addr: u8) -> Result<Address, Error> {
    if addr > BROADCAST_ADDR {
        Err(Error::BadAddress(addr))
    } else {
        Ok(Address { byte: (addr + 0x80) as u8 })
    }
}

/// Two-bit sequence number. Zero only opens a conversation; after it the numbers cycle
/// through one, two and three.
#[derive(Debug, Clone, Copy, PartialEq, Eq, Structural)]
pub enum Sqn {
    /// Start of a conversation.
    Zero,
    /// First number of the cycle.
    One,
    /// Second number of the cycle.
    Two,
    /// Third number of the cycle.
    Three,
}

impl Sqn {
    /// The number that opens a conversation.
    pub const ZERO: Sqn = Sqn::Zero;

    /// The number on the wire.
    pub open spec fn spec_value(self) -> u8 {
        match self {
            Sqn::Zero => 0,
            Sqn::One => 1,
            Sqn::Two => 2,
            Sqn::Three => 3,
        }
    }

    /// The successor in the cycle.
    pub open spec fn spec_next(self) -> Sqn {
        match self {
            Sqn::Zero => Sqn::One,
            Sqn::One => Sqn::Two,
            Sqn::Two => Sqn::Three,
            Sqn::Three => Sqn::One,
        }
    }

    /// The sequence number that `v` stands for.
    pub fn new(v: u8) -> (r: Result<Sqn, Error>)
        ensures
            match r {
                Ok(s) => s.spec_value() == v,
                Err(e) => v > 3 && e == Error::BadSqn(v),
            },
    {
        match v {
            0 => Ok(Sqn::Zero),
            1 => Ok(Sqn::One),
            2 => Ok(Sqn::Two),
            3 => Ok(Sqn::Three),
            _ => Err(Error::BadSqn(v)),
        }
    }

    /// The number on the wire.
    pub fn value(&self) -> (v: u8)
        ensures
            v == self.spec_value(),
            v <= 3,
    {
        match self {
            Sqn::Zero => 0,
            Sqn::One => 1,
            Sqn::Two => 2,
            Sqn::Three => 3,
        }
    }

    /// The successor in the cycle.
    pub fn next(&self) -> (s: Sqn)
        ensures
            s == self.spec_next(),
    {
        match self {
            Sqn::Zero => Sqn::One,
            Sqn::One => Sqn::Two,
            Sqn::Two => Sqn::Three,
            Sqn::Three => Sqn::One,
        }
    }
}

/// Once a conversation has begun, the sequence number never is zero again and comes back
/// after three steps, and each step changes it.
pub proof fn law_sqn_cycle(s: Sqn)
    ensures
        s.spec_next() != Sqn::Zero,
        s.spec_next() != s,
        s != Sqn::Zero ==> s.spec_next().spec_next().spec_next() == s,
{
}

/// Different sequence numbers have different wire values.
pub proof fn law_sqn_value_injective(s: Sqn, t: Sqn)
    requires
        s.spec_value() == t.spec_value(),
    ensures
        s == t,
{
}

/// Option bits of the control byte.
#[derive(Debug, Clone, Copy, PartialEq, Eq, Structural)]
pub struct CtrlFlags {
    /// The frame ends in a CRC-16 instead of a checksum.
    pub use_crc: bool,
    /// The frame carries a security block.
    pub has_scb: bool,
}

impl CtrlFlags {
    /// CRC-16 trailer.
    pub fn crc() -> (f: CtrlFlags)
        ensures
            f == (CtrlFlags { use_crc: true, has_scb: false }),
    {
        CtrlFlags { use_crc: true, has_scb: false }
    }

    /// Security block present.
    pub fn scb() -> (f: CtrlFlags)
        ensures
            f == (CtrlFlags { use_crc: false, has_scb: true }),
    {
        CtrlFlags { use_crc: false, has_scb: true }
    }

    /// No option.
    pub fn empty() -> (f: CtrlFlags)
        ensures
            f == (CtrlFlags { use_crc: false, has_scb: false }),
    {
        CtrlFlags { use_crc: false, has_scb: false }
    }
}

impl core::ops::BitOr for CtrlFlags {
    type Output = CtrlFlags;

    fn bitor(self, rhs: CtrlFlags) -> (f: CtrlFlags) {
        CtrlFlags { use_crc: self.use_crc || rhs.use_crc, has_scb: self.has_scb || rhs.has_scb }
    }
}

impl vstd::std_specs::ops::BitOrSpecImpl for CtrlFlags {
    open spec fn obeys_bitor_spec() -> bool {
        true
    }

    open spec fn bitor_req(self, rhs: CtrlFlags) -> bool {
        true
    }

    open spec fn bitor_spec(self, rhs: CtrlFlags) -> CtrlFlags {
        CtrlFlags { use_crc: self.use_crc || rhs.use_crc, has_scb: self.has_scb || rhs.has_scb }
    }
}

/// The control byte: sequence number and option bits.
#[derive(Debug, Clone, Copy, PartialEq, Eq, Structural)]
pub struct ControlByte {
    /// Sequence number.
    pub sqn: Sqn,
    /// Option bits.
    pub flags: CtrlFlags,
}

impl ControlByte {
    /// Put a control byte together.
    pub fn new(sqn: Sqn, flags: CtrlFlags) -> (c: ControlByte)
        ensures
            c == (ControlByte { sqn, flags }),
    {
        ControlByte { sqn, flags }
    }

    /// The byte on the wire: bits 0 and 1 hold the sequence number, bit 2 announces a
    /// CRC and bit 3 a security block.
    pub open spec fn spec_byte(self) -> u8 {
        (self.sqn.spec_value() + (if self.flags.use_crc { 4int } else { 0 }) + (
        if self.flags.has_scb { 8int } else { 0 })) as u8
    }

    /// What the wire byte `b` says. Bits 4 to 7 are not looked at.
    pub open spec fn spec_from_byte(b: u8) -> ControlByte {
        ControlByte {
            sqn: if b % 4 == 0 {
                Sqn::Zero
            } else if b % 4 == 1 {
                Sqn::One
            } else if b % 4 == 2 {
                Sqn::Two
            } else {
                Sqn::Three
            },
            flags: CtrlFlags { use_crc: (b / 4) % 2 == 1, has_scb: (b / 8) % 2 == 1 },
        }
    }

    /// The byte on the wire.
    pub fn as_byte(&self) -> (b: u8)
        ensures
            b == self.spec_byte(),
    {
        let mut b: u8 = self.sqn.value();
        if self.flags.use_crc {
            b = b + 4;
        }
        if self.flags.has_scb {
            b = b + 8;
        }
        b
    }

    /// Read a control byte.
    pub fn from_byte(b: u8) -> (c: ControlByte)
        ensures
            c == ControlByte::spec_from_byte(b),
    {
        let sqn = match b % 4 {
            0 => Sqn::Zero,
            1 => Sqn::One,
            2 => Sqn::Two,
            _ => Sqn::Three,
        };
        ControlByte {
            sqn,
            flags: CtrlFlags { use_crc: (b / 4) % 2 == 1, has_scb: (b / 8) % 2 == 1 },
        }
    }
}

/// A control byte that was written is read back as it was.
pub proof fn law_control_byte_round_trip(c: ControlByte)
    ensures
        ControlByte::spec_from_byte(c.spec_byte()) == c,
{
}

/// A PD can have any address up to `0x7f`. A command carries the address itself, a reply
/// the address with its highest bit set, and both give the address back.
pub proof fn law_addresses(addr: u8)
    ensures
        addr <= 0x7f ==> command_address(addr) == Ok::<Address, Error>(Address { byte: addr }),
        addr > 0x7f ==> command_address(addr) == Err::<Address, Error>(Error::BadAddress(addr)),
        match reply_address(addr) {
            Ok(a) => addr <= 0x7f && a.byte == addr + 128 && a.spec_pd_addr() == addr,
            Err(e) => addr > 0x7f && e == Error::BadAddress(addr),
        },
        addr <= 0x7f ==> (Address { byte: addr }).spec_pd_addr() == addr,
{
}

/// The numbers on the wire, and the order in which they come.
pub proof fn law_sqn_values(s: Sqn)
    ensures
        s.spec_value() == 0 <==> s is Zero,
        s.spec_value() == 1 <==> s is One,
        s.spec_value() == 2 <==> s is Two,
        s.spec_value() == 3 <==> s is Three,
        s.spec_next().spec_value() == s.spec_value() % 3 + 1,
{
}

/// What each bit of the control byte says: the two lowest are the sequence number, the third
/// announces a CRC and the fourth a security block. The others are written as zeros, and may
/// be anything when read.
pub proof fn law_control_byte_bits(c: ControlByte, b: u8)
    ensures
        c.spec_byte() < 16,
        c.spec_byte() % 4 == c.sqn.spec_value(),
        c.flags.use_crc <==> c.spec_byte() % 8 >= 4,
        c.flags.has_scb <==> c.spec_byte() >= 8,
        ControlByte::spec_from_byte(b).sqn.spec_value() == b % 4,
        ControlByte::spec_from_byte(b).flags.use_crc <==> b % 8 >= 4,
        ControlByte::spec_from_byte(b).flags.has_scb <==> b % 16 >= 8,
        ControlByte::spec_from_byte(b).spec_byte() == b % 16,
{
}

} // verus!
