//! A small RISC-V kernel's core logic: physical memory and Sv39 page tables,
//! ELF images, the process table and its scheduler, a spin lock, virtio queues,
//! ARP requests and the user shell's line discipline.
pub mod constants;
pub mod error;
pub mod util;
pub mod mem;
pub mod paging;
pub mod elf;
pub mod process;
pub mod mutex;
pub mod net;
pub mod virtio;
pub mod virtio_net;
pub mod sbi;
pub mod trap;
pub mod shell;
