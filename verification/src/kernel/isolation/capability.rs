use vstd::prelude::*;

verus! {

/// Identifier of a kernel capability.
#[derive(Clone, Copy, Debug, PartialEq, Eq, Structural)]
pub struct CapabilityId(pub u64);

/// The kind of kernel object a capability grants access to.
#[derive(Clone, Copy, Debug, PartialEq, Eq, Structural)]
pub enum CapabilityType {
    MemoryRegion,
    IpcEndpoint,
    HardwareInterrupt,
}

/// A capability: an unforgeable token naming an object and a permission mask.
pub struct Capability {
    pub id: CapabilityId,
    pub cap_type: CapabilityType,
    pub permissions: u32,
}

/// True when every bit of `perm` is set in `permissions`.
pub open spec fn grants(permissions: u32, perm: u32) -> bool {
    permissions & perm == perm
}

impl Capability {
    pub const READ: u32 = 1 << 0;
    pub const WRITE: u32 = 1 << 1;
    pub const EXECUTE: u32 = 1 << 2;
    pub const GRANT: u32 = 1 << 3;

    pub fn new(id: CapabilityId, cap_type: CapabilityType, permissions: u32) -> (c: Self)
        ensures
            c.id == id,
            c.cap_type == cap_type,
            c.permissions == permissions,
    {
        Self { id, cap_type, permissions }
    }

    /// The capability holds every permission bit of `perm`.
    pub fn has_permission(&self, perm: u32) -> (r: bool)
        ensures
            r == grants(self.permissions, perm),
    {
        (self.permissions & perm) == perm
    }
}

/// A capability that authorises IPC operations.
pub struct IpcCapability {
    pub cap: Capability,
}

impl IpcCapability {
    pub fn new(cap: Capability) -> (r: Self)
        ensures
            r.cap == cap,
    {
        Self { cap }
    }
}

/// A capability holds a combined permission exactly when it holds each part of it.
pub proof fn law_permission_union(permissions: u32, a: u32, b: u32)
    ensures
        grants(permissions, a | b) <==> grants(permissions, a) && grants(permissions, b),
{
    assert((permissions & (a | b) == (a | b)) <==> (permissions & a == a && permissions & b == b))
        by (bit_vector);
}

/// A permission check is the subset test on permission bits: `perm` is held exactly
/// when it sets no bit that `permissions` lacks, and a single bit `k` (any of the
/// 32) is held exactly when `permissions` has bit `k`. So every mask grants itself
/// and the empty request, and GRANT is held exactly when its bit is set.
pub proof fn law_permission_is_bit_subset(permissions: u32, perm: u32, k: u32)
    requires
        k < 32,
    ensures
        grants(permissions, perm) <==> perm & !permissions == 0,
        grants(permissions, 1u32 << k) <==> (permissions >> k) & 1 == 1,
        grants(permissions, permissions),
        grants(permissions, 0),
        grants(permissions, Capability::GRANT) <==> permissions & 8 != 0,
{
    assert((permissions & perm == perm) <==> (perm & !permissions == 0)) by (bit_vector);
    assert((permissions & (1u32 << k) == (1u32 << k)) <==> ((permissions >> k) & 1 == 1))
        by (bit_vector)
        requires
            k < 32,
    ;
    assert(permissions & permissions == permissions) by (bit_vector);
    assert(permissions & 0 == 0) by (bit_vector);
    assert((permissions & (1u32 << 3u32) == (1u32 << 3u32)) <==> (permissions & 8 != 0))
        by (bit_vector);
}

} // verus!
