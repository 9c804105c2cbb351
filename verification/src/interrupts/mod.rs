pub mod task;
pub mod idt;
pub mod exceptions;
pub mod syscalls;
