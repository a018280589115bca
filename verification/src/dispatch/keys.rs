//! The handles that captures, interfaces and registrations are addressed by.

use vstd::prelude::*;

use crate::arena::Key;

verus! {

/// The tag of the interface monitor among the watched descriptors.
pub const MONITOR_TAG: u64 = 0xffff_ffff_ffff_ffff;

/// A handle to a capture in the interface table. Captures are only ever added, so the index is a
/// stable identity.
#[derive(Clone, Copy, PartialEq, Eq, Structural, Debug)]
pub struct CaptureKey(pub u32);

impl CaptureKey {
    /// The key as the tag a watched descriptor carries.
    pub fn to_u64(self) -> (r: u64)
        ensures
            r == self.0,
    {
        self.0 as u64
    }

    /// The key a tag carries; a tag too large for one loses its high half.
    pub fn from_u64(packed: u64) -> (r: Self)
        ensures
            r == CaptureKey::unpacked(packed),
    {
        CaptureKey((packed % 0x1_0000_0000) as u32)
    }

    /// The key in the low half of a tag.
    pub open spec fn unpacked(packed: u64) -> Self {
        CaptureKey((packed % 0x1_0000_0000) as u32)
    }
}

/// A handle to an interface in the interface table. Interfaces are only ever added, so the index is
/// a stable identity.
#[derive(Clone, Copy, PartialEq, Eq, Structural, Debug)]
pub struct InterfaceKey(pub u32);

/// A handle to a routing registration. It addresses nothing once the registration is removed.
#[derive(Clone, Copy, PartialEq, Eq, Structural, Debug)]
pub struct RegistrationKey(pub Key);

/// A capture key survives the trip through a descriptor's tag, and its tag is never the interface
/// monitor's.
pub proof fn law_tags_carry_capture_keys(key: CaptureKey)
    ensures
        CaptureKey::unpacked(key.0 as u64) == key,
        key.0 as u64 != MONITOR_TAG,
{
}

/// A tag's key and its high half make up the tag, so that two tags carry the same key exactly if they
/// differ by whole high halves.
pub proof fn law_a_tag_carries_its_low_half(tag: u64)
    ensures
        CaptureKey::unpacked(tag).0 + 0x1_0000_0000 * (tag as int / 0x1_0000_0000) == tag,
        MONITOR_TAG == u64::MAX,
{
}

}
