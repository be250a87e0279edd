use aao_os::kernel::arch::x86_64::apic::apic_base;
use aao_os::kernel::arch::x86_64::idt::{kernel_idt, IdtEntry, InterruptDescriptorTable};
use aao_os::kernel::syscall::{syscall_handler, INVALID_SYSCALL};

#[test]
fn syscall_dispatch() {
    assert_eq!(syscall_handler(1, 0x41), 0);
    assert_eq!(syscall_handler(2, 0x41), 0x41);
    assert_eq!(syscall_handler(0, 5), INVALID_SYSCALL);
    assert_eq!(syscall_handler(3, 5), 0xFFFF_FFFF_FFFF_FFFF);
}

#[test]
fn apic_base_masks_the_msr() {
    assert_eq!(apic_base(0xFEE0_0900), Some(0xFEE0_0000));
    assert_eq!(apic_base(0x0000_0FFF), None);
    assert_eq!(apic_base(0xFFFF_FFFF_0000_0FFF), None);
}

#[test]
fn idt_entry_missing_is_zero() {
    let e = IdtEntry::missing();
    assert_eq!((e.gdt_selector, e.options, e.offset_low, e.offset_middle, e.offset_high, e.reserved), (0, 0, 0, 0, 0, 0));
}

#[test]
fn set_handler_splits_the_address() {
    let mut e = IdtEntry::missing();
    e.set_handler(0x1234_5678_9ABC_DEF0);
    assert_eq!(e.gdt_selector, 0x08);
    assert_eq!(e.options, 0x8E00);
    assert_eq!(e.offset_low, 0xDEF0);
    assert_eq!(e.offset_middle, 0x9ABC);
    assert_eq!(e.offset_high, 0x1234_5678);
    assert_eq!(e.reserved, 0);
    let back = (e.offset_low as u64) | ((e.offset_middle as u64) << 16) | ((e.offset_high as u64) << 32);
    assert_eq!(back, 0x1234_5678_9ABC_DEF0);
}

#[test]
fn new_idt_has_only_missing_gates() {
    let t = InterruptDescriptorTable::new();
    assert_eq!(t.entries.len(), 256);
    assert!(t.entries.iter().all(|e| e.options == 0 && e.offset_low == 0 && e.gdt_selector == 0));
}

#[test]
fn kernel_idt_installs_two_handlers() {
    let t = kernel_idt(0xFFFF_8000_0000_1000, 0xFFFF_8000_0000_2040);
    let addr = |e: &IdtEntry| (e.offset_low as u64) | ((e.offset_middle as u64) << 16) | ((e.offset_high as u64) << 32);
    assert_eq!(addr(&t.entries[14]), 0xFFFF_8000_0000_1000);
    assert_eq!(addr(&t.entries[32]), 0xFFFF_8000_0000_2040);
    assert_eq!(t.entries[14].options, 0x8E00);
    assert_eq!(t.entries[32].gdt_selector, 0x08);
    assert_eq!(t.entries[14].reserved, 0);
    assert_eq!(t.entries[32].reserved, 0);
    assert_eq!(t.entries[32].options, 0x8E00);
    for (i, e) in t.entries.iter().enumerate() {
        if i != 14 && i != 32 {
            assert_eq!((e.options, e.offset_low, e.offset_high), (0, 0, 0));
        }
    }
}
