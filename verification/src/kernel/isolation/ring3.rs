use vstd::prelude::*;

verus! {

/// Identifier of an isolation domain.
#[derive(Clone, Copy, Debug, PartialEq, Eq, Structural)]
pub struct DomainId(pub u64);

/// Life-cycle state of a domain or process.
#[derive(Clone, Copy, Debug, PartialEq, Eq, Structural)]
pub enum DomainState {
    Ready,
    Running,
    Blocked,
    Terminated,
}

/// Where a user-mode domain starts executing.
pub struct UserEntry {
    pub entry_point: u64,
    pub stack_top: u64,
}

impl UserEntry {
    pub fn new(entry_point: u64, stack_top: u64) -> (e: Self)
        ensures
            e.entry_point == entry_point,
            e.stack_top == stack_top,
    {
        Self { entry_point, stack_top }
    }
}

/// A ring-3 protection domain.
pub struct Ring3Domain {
    pub id: DomainId,
    pub state: DomainState,
    pub entry: UserEntry,
}

impl Ring3Domain {
    /// Creates the first user domain, ready to run.
    pub fn new(entry: UserEntry) -> (r: Result<Self, &'static str>)
        ensures
            r.is_ok(),
            r->Ok_0.id == DomainId(1),
            r->Ok_0.state == DomainState::Ready,
            r->Ok_0.entry == entry,
    {
        Ok(Self { id: DomainId(1), state: DomainState::Ready, entry })
    }
}

} // verus!
