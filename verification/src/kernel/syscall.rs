use vstd::prelude::*;

verus! {

/// Returned for a system call number the kernel does not know.
pub const INVALID_SYSCALL: u64 = 0xFFFF_FFFF_FFFF_FFFF;

/// Dispatches a system call: number 1 (yield / print test) returns 0, number 2
/// (capability IPC send) returns its first argument, any other number is invalid.
pub fn syscall_handler(syscall_num: u64, arg1: u64) -> (r: u64)
    ensures
        syscall_num == 1 ==> r == 0,
        syscall_num == 2 ==> r == arg1,
        syscall_num != 1 && syscall_num != 2 ==> r == INVALID_SYSCALL,
{
    match syscall_num {
        1 => { 0 },
        2 => { arg1 },
        _ => 0xFFFF_FFFF_FFFF_FFFF,
    }
}

} // verus!
