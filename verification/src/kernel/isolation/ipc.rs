use vstd::prelude::*;
use crate::kernel::isolation::capability::{grants, Capability, IpcCapability};

verus! {

/// Identifier of an IPC endpoint.
#[derive(Clone, Copy, Debug, PartialEq, Eq, Structural)]
pub struct EndpointId(pub u64);

/// Number of registers an IPC message carries.
pub const MESSAGE_REGISTERS: usize = 4;

/// A register-sized IPC message: up to four words, filled in order.
pub struct IpcMessage {
    pub registers: [u64; 4],
    pub count: usize,
}

impl IpcMessage {
    /// The words pushed so far, in push order.
    pub open spec fn words(&self) -> Seq<u64> {
        self.registers@.take(self.count as int)
    }

    pub fn empty() -> (m: Self)
        ensures
            m.count == 0,
            m.registers@ == seq![0u64, 0u64, 0u64, 0u64],
            m.words() == Seq::<u64>::empty(),
    {
        let m = Self { registers: [0; 4], count: 0 };
        assert(m.registers@ =~= seq![0u64, 0u64, 0u64, 0u64]);
        m
    }

    /// Appends a word; fails once all four registers are used.
    pub fn push(&mut self, val: u64) -> (r: Result<(), &'static str>)
        ensures
            r.is_ok() <==> old(self).count < MESSAGE_REGISTERS,
            r.is_ok() ==> {
                &&& final(self).registers@ == old(self).registers@.update(old(self).count as int, val)
                &&& final(self).count == old(self).count + 1
                &&& final(self).words() == old(self).words().push(val)
            },
            r.is_err() ==> {
                &&& *final(self) == *old(self)
                &&& r->Err_0@ == "IPC Message Buffer Full"@
            },
    {
        if self.count < 4 {
            let ghost before = self.words();
            self.registers[self.count] = val;
            self.count += 1;
            assert(self.words() =~= before.push(val));
            Ok(())
        } else {
            Err("IPC Message Buffer Full")
        }
    }
}

/// The sum of the four message registers, as the send path computes it.
pub open spec fn register_sum(registers: Seq<u64>) -> int {
    registers[0] + registers[1] + registers[2] + registers[3]
}

/// An IPC endpoint.
pub struct IpcEndpoint {
    pub id: EndpointId,
}

impl IpcEndpoint {
    pub fn new(id: EndpointId) -> (e: Self)
        ensures
            e.id == id,
    {
        Self { id }
    }

    /// Synchronous send: allowed only with the WRITE permission.
    pub fn send(&self, cap: &IpcCapability, msg: &IpcMessage) -> (r: Result<(), &'static str>)
        requires
            grants(cap.cap.permissions, Capability::WRITE) ==> register_sum(msg.registers@)
                <= u64::MAX,
        ensures
            r.is_ok() <==> grants(cap.cap.permissions, Capability::WRITE),
            r.is_err() ==> r->Err_0@ == "Access Denied: Missing WRITE permission for IPC"@,
    {
        if !cap.cap.has_permission(Capability::WRITE) {
            return Err("Access Denied: Missing WRITE permission for IPC");
        }
        let _payload_sum: u64 = msg.registers[0] + msg.registers[1] + msg.registers[2]
            + msg.registers[3];
        Ok(())
    }
}

} // verus!
