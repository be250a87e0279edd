use vstd::prelude::*;
use crate::kernel::isolation::capability::{Capability, CapabilityId, CapabilityType};

verus! {

/// Identifier of a user-space service.
#[derive(Clone, Copy, Debug, PartialEq, Eq, Structural)]
pub struct ServiceId(pub u64);

/// Supervision status of a service.
#[derive(Clone, Copy, Debug, PartialEq, Eq, Structural)]
pub enum ServiceStatus {
    Stopped,
    Running,
    Crashed,
    Restarting,
}

/// A supervised user-space service.
pub struct UserService {
    pub id: ServiceId,
    pub status: ServiceStatus,
    pub cap: Capability,
    pub restart_count: u32,
}

impl UserService {
    pub fn new(id: ServiceId, cap: Capability) -> (s: Self)
        ensures
            s.id == id,
            s.status == ServiceStatus::Stopped,
            s.cap == cap,
            s.restart_count == 0,
    {
        Self { id, status: ServiceStatus::Stopped, cap, restart_count: 0 }
    }

    pub fn start(&mut self) -> (r: Result<(), &'static str>)
        ensures
            r.is_ok(),
            final(self).status == ServiceStatus::Running,
            final(self).id == old(self).id,
            final(self).cap == old(self).cap,
            final(self).restart_count == old(self).restart_count,
    {
        self.status = ServiceStatus::Running;
        Ok(())
    }

    /// Records a fault and restarts the service.
    pub fn handle_fault(&mut self) -> (r: Result<(), &'static str>)
        requires
            old(self).restart_count < u32::MAX,
        ensures
            r.is_ok(),
            final(self).status == ServiceStatus::Running,
            final(self).restart_count == old(self).restart_count + 1,
            final(self).id == old(self).id,
            final(self).cap == old(self).cap,
    {
        self.status = ServiceStatus::Crashed;
        self.restart_count += 1;
        self.status = ServiceStatus::Restarting;
        self.start()
    }
}

/// The capability handed to a service: an IPC endpoint with read, write and execute rights.
pub fn service_capability(id: u64) -> (c: Capability)
    ensures
        c.id == CapabilityId(id),
        c.cap_type == CapabilityType::IpcEndpoint,
        c.permissions == Capability::READ | Capability::WRITE | Capability::EXECUTE,
        c.permissions == 7,
{
    assert((1u32 << 0u32) | (1u32 << 1u32) | (1u32 << 2u32) == 7u32) by (bit_vector);
    Capability::new(
        CapabilityId(id),
        CapabilityType::IpcEndpoint,
        Capability::READ | Capability::WRITE | Capability::EXECUTE,
    )
}

} // verus!
