pub mod capability;
pub mod ipc;
pub mod ring3;
pub mod scheduler;
pub mod service;
