pub mod arch;
pub mod boot_info;
pub mod graphics;
pub mod isolation;
pub mod memory;
pub mod syscall;

use vstd::prelude::*;

verus! {

/// Size of the kernel's boot stack.
pub const KERNEL_STACK_SIZE: usize = 32768;

/// Backing storage of the kernel's boot stack.
pub struct KernelStack(pub [u8; KERNEL_STACK_SIZE]);

} // verus!
