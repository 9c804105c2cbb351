pub mod window_manager;
pub mod fs;
pub mod memory;
pub mod interrupts;
pub mod text;
pub mod zorder;
pub mod composer;
pub mod drivers;
pub mod debug;
pub mod libc;
pub mod printf;
