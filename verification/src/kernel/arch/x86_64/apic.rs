use vstd::prelude::*;

verus! {

/// Bits 12..31 of the APIC base MSR: the physical base of the local APIC registers.
pub const APIC_BASE_MASK: u64 = 0xFFFF_F000;

/// The local APIC's register base named by the value of the APIC base MSR, or
/// `None` when the MSR names none, in which case the APIC is left alone.
pub fn apic_base(apic_msr: u64) -> (r: Option<u64>)
    ensures
        apic_msr & APIC_BASE_MASK == 0 ==> r is None,
        apic_msr & APIC_BASE_MASK != 0 ==> r == Some(apic_msr & APIC_BASE_MASK),
{
    let base = apic_msr & 0xFFFF_F000;
    if base == 0 {
        None
    } else {
        Some(base)
    }
}

} // verus!
