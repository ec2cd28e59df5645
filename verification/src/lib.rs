//! Verified core of a small x86_64 microkernel and its userland services:
//! memory bookkeeping, processes and scheduling, message passing, the
//! ramdisk file system, ELF loading, and the input/window subsystems.

pub mod compositor;
pub mod console;
pub mod console_driver;
pub mod elf;
pub mod fat32;
pub mod font;
pub mod frame;
pub mod framebuffer;
pub mod gdt;
pub mod idt;
pub mod ipc;
pub mod keyboard;
pub mod libhuseyn;
pub mod loader;
pub mod mouse;
pub mod paging;
pub mod pit;
pub mod process;
pub mod raster;
pub mod rtc;
pub mod scheduler;
pub mod shell;
pub mod shm;
pub mod syscall;
pub mod terminal;
pub mod vfs;
pub mod vma;
