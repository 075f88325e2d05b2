//! Security control blocks.

use vstd::prelude::*;
use vstd::slice::slice_to_vec;

use crate::error::Error;

verus! {

/// SCS_14 `SEC_BLK_DATA` of a PD that accepted the server cryptogram.
pub const SCS14_STATUS_SUCCESS: [u8; 1] = [0x01];

/// SCS_14 `SEC_BLK_DATA` of a PD that rejected the server cryptogram.
pub const SCS14_STATUS_FAILURE: [u8; 1] = [0xff];

/// Security block types: the four handshake steps, then MAC-only and encrypted traffic
/// in either direction.
#[derive(Debug, Clone, Copy, PartialEq, Eq, Structural)]
pub enum ScsType {
    /// ACU to PD: challenge.
    Scs11,
    /// PD to ACU: PD identity and cryptogram.
    Scs12,
    /// ACU to PD: server cryptogram.
    Scs13,
    /// PD to ACU: initial R-MAC and handshake status.
    Scs14,
    /// ACU to PD: MAC, no DATA.
    Scs15,
    /// PD to ACU: MAC, no DATA.
    Scs16,
    /// ACU to PD: MAC and encrypted DATA.
    Scs17,
    /// PD to ACU: MAC and encrypted DATA.
    Scs18,
}

impl ScsType {
    /// SEC_BLK_TYPE on the wire.
    pub open spec fn spec_byte(self) -> u8 {
        match self {
            ScsType::Scs11 => 0x11,
            ScsType::Scs12 => 0x12,
            ScsType::Scs13 => 0x13,
            ScsType::Scs14 => 0x14,
            ScsType::Scs15 => 0x15,
            ScsType::Scs16 => 0x16,
            ScsType::Scs17 => 0x17,
            ScsType::Scs18 => 0x18,
        }
    }

    /// The type that SEC_BLK_TYPE `b` stands for.
    pub open spec fn spec_from_byte(b: u8) -> Result<ScsType, Error> {
        if b == 0x11 {
            Ok(ScsType::Scs11)
        } else if b == 0x12 {
            Ok(ScsType::Scs12)
        } else if b == 0x13 {
            Ok(ScsType::Scs13)
        } else if b == 0x14 {
            Ok(ScsType::Scs14)
        } else if b == 0x15 {
            Ok(ScsType::Scs15)
        } else if b == 0x16 {
            Ok(ScsType::Scs16)
        } else if b == 0x17 {
            Ok(ScsType::Scs17)
        } else if b == 0x18 {
            Ok(ScsType::Scs18)
        } else {
            Err(Error::BadSecurityBlock(b))
        }
    }

    /// Whether frames of this type carry a MAC.
    pub open spec fn spec_has_mac(self) -> bool {
        self is Scs15 || self is Scs16 || self is Scs17 || self is Scs18
    }

    /// SEC_BLK_TYPE on the wire.
    pub fn as_byte(&self) -> (b: u8)
        ensures
            b == self.spec_byte(),
    {
        match self {
            ScsType::Scs11 => 0x11,
            ScsType::Scs12 => 0x12,
            ScsType::Scs13 => 0x13,
            ScsType::Scs14 => 0x14,
            ScsType::Scs15 => 0x15,
            ScsType::Scs16 => 0x16,
            ScsType::Scs17 => 0x17,
            ScsType::Scs18 => 0x18,
        }
    }

    /// Read a SEC_BLK_TYPE.
    pub fn from_byte(b: u8) -> (r: Result<ScsType, Error>)
        ensures
            r == ScsType::spec_from_byte(b),
    {
        match b {
            0x11 => Ok(ScsType::Scs11),
            0x12 => Ok(ScsType::Scs12),
            0x13 => Ok(ScsType::Scs13),
            0x14 => Ok(ScsType::Scs14),
            0x15 => Ok(ScsType::Scs15),
            0x16 => Ok(ScsType::Scs16),
            0x17 => Ok(ScsType::Scs17),
            0x18 => Ok(ScsType::Scs18),
            _ => Err(Error::BadSecurityBlock(b)),
        }
    }

    /// Whether frames of this type carry a MAC.
    pub fn has_mac(&self) -> (r: bool)
        ensures
            r == self.spec_has_mac(),
    {
        match self {
            ScsType::Scs15 | ScsType::Scs16 | ScsType::Scs17 | ScsType::Scs18 => true,
            _ => false,
        }
    }
}

/// A security block type that was written is read back as it was.
pub proof fn law_scs_type_round_trip(ty: ScsType)
    ensures
        ScsType::spec_from_byte(ty.spec_byte()) == Ok::<ScsType, Error>(ty),
{
}

/// What a security block says.
#[verifier::ext_equal]
pub struct ScbView {
    /// SEC_BLK_TYPE.
    pub ty: ScsType,
    /// SEC_BLK_DATA.
    pub data: Seq<u8>,
}

/// Security control block that owns its data.
#[derive(Debug, Clone, PartialEq, Eq)]
pub struct Scb {
    /// SEC_BLK_TYPE.
    pub ty: ScsType,
    /// SEC_BLK_DATA.
    pub data: Vec<u8>,
}

impl View for Scb {
    type V = ScbView;

    open spec fn view(&self) -> ScbView {
        ScbView { ty: self.ty, data: self.data@ }
    }
}

impl Scb {
    /// Put a security block together.
    pub fn new<const N: usize>(ty: ScsType, data: [u8; N]) -> (s: Scb)
        ensures
            s@ == (ScbView { ty, data: data@ }),
    {
        Scb { ty, data: slice_to_vec(data.as_slice()) }
    }
}

/// Security control block inside a parsed frame.
#[derive(Debug, Clone, Copy, PartialEq, Eq)]
pub struct ScbRef<'a> {
    /// SEC_BLK_TYPE.
    pub ty: ScsType,
    /// SEC_BLK_DATA.
    pub data: &'a [u8],
}

impl View for ScbRef<'_> {
    type V = ScbView;

    open spec fn view(&self) -> ScbView {
        ScbView { ty: self.ty, data: self.data@ }
    }
}

impl ScbRef<'_> {
    /// Copy the block out of the frame.
    pub fn to_owned(&self) -> (s: Scb)
        ensures
            s@ == self@,
    {
        Scb { ty: self.ty, data: slice_to_vec(self.data) }
    }
}

/// Contents of an optional security block.
pub open spec fn scb_view(scb: Option<Scb>) -> Option<ScbView> {
    match scb {
        Some(s) => Some(s@),
        None => None,
    }
}

/// The types are numbered from `0x11` to `0x18`, and no other number is one. Those from
/// `0x15` on carry a MAC.
pub proof fn law_security_block_types(ty: ScsType, b: u8)
    ensures
        ty is Scs11 <==> ty.spec_byte() == 0x11,
        ty is Scs12 <==> ty.spec_byte() == 0x12,
        ty is Scs13 <==> ty.spec_byte() == 0x13,
        ty is Scs14 <==> ty.spec_byte() == 0x14,
        ty is Scs15 <==> ty.spec_byte() == 0x15,
        ty is Scs16 <==> ty.spec_byte() == 0x16,
        ty is Scs17 <==> ty.spec_byte() == 0x17,
        ty is Scs18 <==> ty.spec_byte() == 0x18,
        ty.spec_has_mac() <==> ty.spec_byte() >= 0x15,
        match ScsType::spec_from_byte(b) {
            Ok(t) => 0x11 <= b <= 0x18 && t.spec_byte() == b,
            Err(e) => !(0x11 <= b <= 0x18) && e == Error::BadSecurityBlock(b),
        },
{
}

} // verus!
