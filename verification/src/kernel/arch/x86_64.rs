pub mod apic;
pub mod idt;
pub mod paging;
