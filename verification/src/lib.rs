pub mod bootloader;
pub mod kernel;
