use vstd::prelude::*;

verus! {

/// Kernel code segment selector installed in every gate.
pub const KERNEL_CODE_SELECTOR: u16 = 0x08;

/// Gate options: present, ring 0, 64-bit interrupt gate.
pub const INTERRUPT_GATE_OPTIONS: u16 = 0x8E00;

/// One interrupt gate, field by field in the order the table stores them.
#[derive(Clone, Copy)]
pub struct IdtEntry {
    pub gdt_selector: u16,
    pub options: u16,
    pub offset_low: u16,
    pub offset_middle: u16,
    pub offset_high: u32,
    pub reserved: u32,
}

/// The entry `set_handler` makes for a handler at `addr`.
pub open spec fn handler_entry(addr: u64) -> IdtEntry {
    IdtEntry {
        gdt_selector: KERNEL_CODE_SELECTOR,
        options: INTERRUPT_GATE_OPTIONS,
        offset_low: addr as u16,
        offset_middle: (addr >> 16u64) as u16,
        offset_high: (addr >> 32u64) as u32,
        reserved: 0,
    }
}

impl IdtEntry {
    /// The handler address that the three offset fields encode.
    pub open spec fn handler_address(self) -> u64 {
        (self.offset_low as u64) | ((self.offset_middle as u64) << 16u64) | ((self.offset_high as u64)
            << 32u64)
    }

    /// No handler is installed: every field is zero.
    pub open spec fn is_missing(self) -> bool {
        &&& self.gdt_selector == 0
        &&& self.options == 0
        &&& self.offset_low == 0
        &&& self.offset_middle == 0
        &&& self.offset_high == 0
        &&& self.reserved == 0
    }

    pub fn missing() -> (e: Self)
        ensures
            e.is_missing(),
    {
        Self {
            gdt_selector: 0,
            options: 0,
            offset_low: 0,
            offset_middle: 0,
            offset_high: 0,
            reserved: 0,
        }
    }

    /// Installs `handler_addr` as a present ring-0 interrupt handler.
    pub fn set_handler(&mut self, handler_addr: u64)
        ensures
            final(self).gdt_selector == KERNEL_CODE_SELECTOR,
            final(self).options == INTERRUPT_GATE_OPTIONS,
            final(self).offset_low == handler_addr as u16,
            final(self).offset_middle == (handler_addr >> 16u64) as u16,
            final(self).offset_high == (handler_addr >> 32u64) as u32,
            final(self).reserved == 0,
            *final(self) == handler_entry(handler_addr),
            final(self).handler_address() == handler_addr,
    {
        self.gdt_selector = 0x08;
        self.options = 0x8E00;
        self.offset_low = handler_addr as u16;
        self.offset_middle = (handler_addr >> 16) as u16;
        self.offset_high = (handler_addr >> 32) as u32;
        self.reserved = 0;
        proof {
            let lo = self.offset_low;
            let mid = self.offset_middle;
            let hi = self.offset_high;
            assert((lo as u64) | ((mid as u64) << 16u64) | ((hi as u64) << 32u64) == handler_addr)
                by (bit_vector)
                requires
                    lo == handler_addr as u16,
                    mid == (handler_addr >> 16u64) as u16,
                    hi == (handler_addr >> 32u64) as u32,
            ;
        }
    }
}

/// The interrupt descriptor table: one gate per vector.
pub struct InterruptDescriptorTable {
    pub entries: [IdtEntry; 256],
}

impl InterruptDescriptorTable {
    pub fn new() -> (t: Self)
        ensures
            forall|i: int| 0 <= i < 256 ==> (#[trigger] t.entries@[i]).is_missing(),
    {
        Self { entries: [IdtEntry::missing(); 256] }
    }
}

/// Vector of the page-fault exception.
pub const PAGE_FAULT_VECTOR: usize = 14;

/// Vector the local APIC timer raises.
pub const TIMER_VECTOR: usize = 32;

/// The kernel's table: the page-fault handler at vector 14, the timer handler at
/// vector 32, no handler anywhere else.
pub fn kernel_idt(page_fault_entry: u64, timer_entry: u64) -> (t: InterruptDescriptorTable)
    ensures
        t.entries@[PAGE_FAULT_VECTOR as int] == handler_entry(page_fault_entry),
        t.entries@[TIMER_VECTOR as int] == handler_entry(timer_entry),
        t.entries@[PAGE_FAULT_VECTOR as int].handler_address() == page_fault_entry,
        t.entries@[PAGE_FAULT_VECTOR as int].options == INTERRUPT_GATE_OPTIONS,
        t.entries@[PAGE_FAULT_VECTOR as int].gdt_selector == KERNEL_CODE_SELECTOR,
        t.entries@[TIMER_VECTOR as int].handler_address() == timer_entry,
        t.entries@[TIMER_VECTOR as int].options == INTERRUPT_GATE_OPTIONS,
        t.entries@[TIMER_VECTOR as int].gdt_selector == KERNEL_CODE_SELECTOR,
        forall|i: int|
            0 <= i < 256 && i != PAGE_FAULT_VECTOR && i != TIMER_VECTOR ==> (
            #[trigger] t.entries@[i]).is_missing(),
{
    let mut idt = InterruptDescriptorTable::new();
    let mut pf = idt.entries[14];
    pf.set_handler(page_fault_entry);
    idt.entries[14] = pf;
    let mut timer = idt.entries[32];
    timer.set_handler(timer_entry);
    idt.entries[32] = timer;
    idt
}

} // verus!
