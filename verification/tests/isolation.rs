use aao_os::kernel::isolation::capability::{Capability, CapabilityId, CapabilityType, IpcCapability};
use aao_os::kernel::isolation::ipc::{EndpointId, IpcEndpoint, IpcMessage};
use aao_os::kernel::isolation::ring3::{DomainId, DomainState, Ring3Domain, UserEntry};
use aao_os::kernel::isolation::scheduler::{ContextSwitch, PreemptiveScheduler, MAX_PROCESSES};
use aao_os::kernel::isolation::service::{service_capability, ServiceId, ServiceStatus, UserService};

#[test]
fn capability_new_keeps_fields() {
    let c = Capability::new(CapabilityId(9), CapabilityType::MemoryRegion, Capability::READ);
    assert_eq!(c.id, CapabilityId(9));
    assert_eq!(c.cap_type, CapabilityType::MemoryRegion);
    assert_eq!(c.permissions, 1);
}

#[test]
fn has_permission_needs_every_bit() {
    let c = Capability::new(CapabilityId(1), CapabilityType::IpcEndpoint, Capability::READ | Capability::WRITE);
    assert!(c.has_permission(Capability::READ));
    assert!(c.has_permission(Capability::WRITE));
    assert!(c.has_permission(Capability::READ | Capability::WRITE));
    assert!(!c.has_permission(Capability::EXECUTE));
    assert!(!c.has_permission(Capability::READ | Capability::EXECUTE));
    assert!(c.has_permission(0));
}

#[test]
fn permission_union_law_on_values() {
    let c = Capability::new(CapabilityId(1), CapabilityType::IpcEndpoint, 0b1011);
    let (a, b) = (Capability::READ, Capability::GRANT);
    assert_eq!(c.has_permission(a | b), c.has_permission(a) && c.has_permission(b));
    let (a, b) = (Capability::READ, Capability::EXECUTE);
    assert_eq!(c.has_permission(a | b), c.has_permission(a) && c.has_permission(b));
}

#[test]
fn service_capability_grants_read_write_execute_only() {
    let c = service_capability(42);
    assert_eq!(c.id, CapabilityId(42));
    assert_eq!(c.cap_type, CapabilityType::IpcEndpoint);
    assert_eq!(c.permissions, 7);
    assert!(c.has_permission(Capability::READ | Capability::WRITE | Capability::EXECUTE));
    assert!(!c.has_permission(Capability::GRANT));
}

#[test]
fn ipc_capability_wraps() {
    let ipc = IpcCapability::new(service_capability(3));
    assert_eq!(ipc.cap.id, CapabilityId(3));
}

#[test]
fn message_fills_four_registers_in_order() {
    let mut m = IpcMessage::empty();
    assert_eq!(m.count, 0);
    assert_eq!(m.registers, [0; 4]);
    for v in [10u64, 20, 30, 40] {
        assert!(m.push(v).is_ok());
    }
    assert_eq!(m.count, 4);
    assert_eq!(m.registers, [10, 20, 30, 40]);
    assert_eq!(m.push(50), Err("IPC Message Buffer Full"));
    assert_eq!(m.count, 4);
    assert_eq!(m.registers, [10, 20, 30, 40]);
}

#[test]
fn send_requires_write_permission() {
    let ep = IpcEndpoint::new(EndpointId(5));
    assert_eq!(ep.id, EndpointId(5));
    let mut m = IpcMessage::empty();
    m.push(1).unwrap();
    let writer = IpcCapability::new(Capability::new(CapabilityId(1), CapabilityType::IpcEndpoint, Capability::WRITE));
    let reader = IpcCapability::new(Capability::new(CapabilityId(2), CapabilityType::IpcEndpoint, Capability::READ));
    assert_eq!(ep.send(&writer, &m), Ok(()));
    assert_eq!(ep.send(&reader, &m), Err("Access Denied: Missing WRITE permission for IPC"));
}

#[test]
fn ring3_domain_starts_ready_with_id_one() {
    let d = Ring3Domain::new(UserEntry::new(0x40_0000, 0x7fff_0000)).unwrap();
    assert_eq!(d.id, DomainId(1));
    assert_eq!(d.state, DomainState::Ready);
    assert_eq!(d.entry.entry_point, 0x40_0000);
    assert_eq!(d.entry.stack_top, 0x7fff_0000);
}

#[test]
fn service_lifecycle() {
    let mut s = UserService::new(ServiceId(7), service_capability(7));
    assert_eq!(s.status, ServiceStatus::Stopped);
    assert_eq!(s.restart_count, 0);
    assert_eq!(s.start(), Ok(()));
    assert_eq!(s.status, ServiceStatus::Running);
    assert_eq!(s.handle_fault(), Ok(()));
    assert_eq!(s.status, ServiceStatus::Running);
    assert_eq!(s.restart_count, 1);
    assert_eq!(s.handle_fault(), Ok(()));
    assert_eq!(s.restart_count, 2);
    assert_eq!(s.id, ServiceId(7));
}

#[test]
fn spawn_fills_slots_until_full() {
    let mut s = PreemptiveScheduler::new();
    assert_eq!(s.process_count, 0);
    for i in 0..MAX_PROCESSES {
        assert_eq!(s.spawn(100 + i as u64, 0x1000 * (i as u64 + 1)), Ok(i));
    }
    assert_eq!(s.process_count, MAX_PROCESSES);
    assert_eq!(s.spawn(999, 0), Err("Scheduler queue full"));
    assert_eq!(s.process_count, MAX_PROCESSES);
    assert_eq!(s.processes[3].id, DomainId(103));
    assert_eq!(s.processes[3].state, DomainState::Ready);
    assert_eq!(s.processes[3].rsp, 0x4000);
}

#[test]
fn schedule_next_needs_two_processes() {
    let mut s = PreemptiveScheduler::new();
    assert_eq!(s.schedule_next(), None);
    s.spawn(1, 0x1000).unwrap();
    assert_eq!(s.schedule_next(), None);
    assert_eq!(s.current_index, 0);
}

#[test]
fn schedule_next_rotates_when_all_runnable() {
    let mut s = PreemptiveScheduler::new();
    s.spawn(1, 0x1000).unwrap();
    s.spawn(2, 0x2000).unwrap();
    s.spawn(3, 0x3000).unwrap();
    assert_eq!(s.schedule_next(), Some(ContextSwitch { from: 0, to_rsp: 0x2000 }));
    assert_eq!(s.current_index, 1);
    assert_eq!(s.processes[0].state, DomainState::Ready);
    assert_eq!(s.processes[1].state, DomainState::Running);
    assert_eq!(s.schedule_next(), Some(ContextSwitch { from: 1, to_rsp: 0x3000 }));
    assert_eq!(s.schedule_next(), Some(ContextSwitch { from: 2, to_rsp: 0x1000 }));
    assert_eq!(s.current_index, 0);
}

#[test]
fn schedule_next_skips_blocked_and_terminated() {
    let mut s = PreemptiveScheduler::new();
    for i in 0..4u64 {
        s.spawn(i, 0x100 * (i + 1)).unwrap();
    }
    s.processes[1].state = DomainState::Blocked;
    s.processes[2].state = DomainState::Terminated;
    assert_eq!(s.schedule_next(), Some(ContextSwitch { from: 0, to_rsp: 0x400 }));
    assert_eq!(s.current_index, 3);
    assert_eq!(s.processes[3].state, DomainState::Running);
    assert_eq!(s.processes[1].state, DomainState::Blocked);
}

#[test]
fn schedule_next_stays_when_no_other_is_runnable() {
    let mut s = PreemptiveScheduler::new();
    for i in 0..3u64 {
        s.spawn(i, 0x100 * (i + 1)).unwrap();
    }
    s.processes[1].state = DomainState::Blocked;
    s.processes[2].state = DomainState::Terminated;
    assert_eq!(s.schedule_next(), None);
    assert_eq!(s.current_index, 0);
    assert_eq!(s.processes[0].state, DomainState::Ready);
}

#[test]
fn schedule_next_marks_a_blocked_current_ready() {
    let mut s = PreemptiveScheduler::new();
    s.spawn(1, 0x10).unwrap();
    s.spawn(2, 0x20).unwrap();
    s.processes[0].state = DomainState::Blocked;
    assert_eq!(s.schedule_next(), Some(ContextSwitch { from: 0, to_rsp: 0x20 }));
    assert_eq!(s.processes[0].state, DomainState::Ready);
}

#[test]
fn schedule_next_with_one_process_ignores_the_current_slot() {
    let mut s = PreemptiveScheduler::new();
    s.spawn(1, 0x10).unwrap();
    s.current_index = 9;
    assert_eq!(s.schedule_next(), None);
    assert_eq!(s.current_index, 9);
}

#[test]
fn round_robin_visits_every_process_once_per_round() {
    let mut s = PreemptiveScheduler::new();
    for i in 0..5u64 {
        s.spawn(i, 0x100 * (i + 1)).unwrap();
    }
    s.current_index = 2;
    let mut seen = Vec::new();
    for k in 1..=5usize {
        let sw = s.schedule_next().unwrap();
        assert_eq!(s.current_index, (2 + k) % 5);
        assert_eq!(s.processes[s.current_index].state, DomainState::Running);
        assert_eq!(sw.from, (2 + k - 1) % 5);
        seen.push(s.current_index);
    }
    seen.sort();
    assert_eq!(seen, vec![0, 1, 2, 3, 4]);
}
