pub mod boot_info;
pub mod elf_loader;
