//! Attribute permissions and their encoding as a GATT permission mask.

use vstd::prelude::*;
use vstd::std_specs::convert::FromSpecImpl;

verus! {

/// Mask bit: the attribute may be read over any link.
pub const PERM_READ: u16 = 0x0001;

/// Mask bit: the attribute may be read over an encrypted link only.
pub const PERM_READ_ENCRYPTED: u16 = 0x0002;

/// Mask bit: the attribute may be written over any link.
pub const PERM_WRITE: u16 = 0x0010;

/// Mask bit: the attribute may be written over an encrypted link only.
pub const PERM_WRITE_ENCRYPTED: u16 = 0x0020;

/// What a peer may do with an attribute.
#[derive(Debug, Clone, Copy)]
pub struct AttributePermissions {
    pub read_access: bool,
    pub write_access: bool,
    pub encryption_required: bool,
}

impl AttributePermissions {
    /// The permission mask that stands for these permissions.
    ///
    /// Without any access the mask is empty, whatever `encryption_required`
    /// says. Otherwise each granted access sets its plain bit, or its
    /// encrypted bit when encryption is required.
    pub open spec fn mask(self) -> u16 {
        match (self.read_access, self.write_access, self.encryption_required) {
            (false, false, _) => 0,
            (true, false, false) => PERM_READ,
            (false, true, false) => PERM_WRITE,
            (true, true, false) => PERM_READ | PERM_WRITE,
            (true, false, true) => PERM_READ_ENCRYPTED,
            (false, true, true) => PERM_WRITE_ENCRYPTED,
            (true, true, true) => PERM_READ_ENCRYPTED | PERM_WRITE_ENCRYPTED,
        }
    }
}

/// What the bits of a permission mask say.
///
/// Each access that is granted sets one bit: its plain bit where no
/// encryption is required, its encrypted bit where it is. No other bit is
/// ever set, so without any access the mask is empty whatever is said of
/// encryption.
pub proof fn lemma_mask_bits(permissions: AttributePermissions)
    ensures
        permissions.mask() & PERM_READ != 0 <==> permissions.read_access
            && !permissions.encryption_required,
        permissions.mask() & PERM_READ_ENCRYPTED != 0 <==> permissions.read_access
            && permissions.encryption_required,
        permissions.mask() & PERM_WRITE != 0 <==> permissions.write_access
            && !permissions.encryption_required,
        permissions.mask() & PERM_WRITE_ENCRYPTED != 0 <==> permissions.write_access
            && permissions.encryption_required,
        permissions.mask() & !(PERM_READ | PERM_READ_ENCRYPTED | PERM_WRITE | PERM_WRITE_ENCRYPTED)
            == 0,
{
    let mask = permissions.mask();
    assert(0x01u16 | 0x10u16 == 0x11u16) by (bit_vector);
    assert(0x02u16 | 0x20u16 == 0x22u16) by (bit_vector);
    assert(mask == 0x00u16 || mask == 0x01u16 || mask == 0x02u16 || mask == 0x10u16 || mask
        == 0x20u16 || mask == 0x11u16 || mask == 0x22u16 ==> {
        &&& (mask & 0x01u16 != 0 <==> mask == 0x01u16 || mask == 0x11u16)
        &&& (mask & 0x02u16 != 0 <==> mask == 0x02u16 || mask == 0x22u16)
        &&& (mask & 0x10u16 != 0 <==> mask == 0x10u16 || mask == 0x11u16)
        &&& (mask & 0x20u16 != 0 <==> mask == 0x20u16 || mask == 0x22u16)
        &&& mask & !(0x01u16 | 0x02u16 | 0x10u16 | 0x20u16) == 0
    }) by (bit_vector);
}

impl Default for AttributePermissions {
    /// No access at all, and no encryption asked for.
    fn default() -> (permissions: Self)
        ensures
            !permissions.read_access,
            !permissions.write_access,
            !permissions.encryption_required,
    {
        Self { read_access: false, write_access: false, encryption_required: false }
    }
}

impl From<AttributePermissions> for u16 {
    /// Encodes the permissions as a permission mask.
    fn from(permissions: AttributePermissions) -> (mask: u16) {
        match (permissions.read_access, permissions.write_access, permissions.encryption_required) {
            (false, false, _) => 0,
            (true, false, false) => PERM_READ,
            (false, true, false) => PERM_WRITE,
            (true, true, false) => PERM_READ | PERM_WRITE,
            (true, false, true) => PERM_READ_ENCRYPTED,
            (false, true, true) => PERM_WRITE_ENCRYPTED,
            (true, true, true) => PERM_READ_ENCRYPTED | PERM_WRITE_ENCRYPTED,
        }
    }
}

impl FromSpecImpl<AttributePermissions> for u16 {
    open spec fn obeys_from_spec() -> bool {
        true
    }

    open spec fn from_spec(permissions: AttributePermissions) -> u16 {
        permissions.mask()
    }
}

} // verus!
