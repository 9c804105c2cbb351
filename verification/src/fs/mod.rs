pub mod pipe;
pub mod disk;
pub mod bytes;
pub mod ext2;
pub mod vfs;
pub mod elf;
