pub mod structs;
pub mod fs;
pub mod node;
pub mod dir;
pub mod mkfs;
pub mod update;
pub mod listing;
pub mod file_write;
