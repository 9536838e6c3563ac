//! Verified core logic of a small x86 research kernel and its bootloader:
//! bitmap frame allocation, the physical memory map, paging structures,
//! a fixed-size block heap, ACPI table parsing, boot information and the
//! network boot server's frame handling.

pub mod frame_alloc;
pub mod memory_map;
pub mod pagetable;
pub mod page;
pub mod tss;
pub mod bootinfo;
pub mod interrupts;
pub mod heap;
pub mod boot;
pub mod bytes;
pub mod mmu;
pub mod frames;
pub mod acpi;
pub mod corestate;
pub mod server;
pub mod pci;
pub mod rtl8139;
pub mod apic;
pub mod media;
pub mod mapper;
pub mod svm_heap;
pub mod dhcp;
pub mod pxe;
