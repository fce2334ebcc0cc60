pub mod pipe;
pub mod fs;
pub mod flock;
pub mod ext4;
pub mod fd;
pub mod tty;
pub mod usb;
pub mod vfs;
pub mod ramfs;
pub mod keyboard;
pub mod vga;
pub mod p9;
pub mod fat32;
pub mod ahci;
pub mod nvme;
pub mod nvme_init;
