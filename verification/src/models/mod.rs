pub mod cpu;
pub mod memory;
pub mod network;
pub mod process;
pub mod sensors;
pub mod system;
