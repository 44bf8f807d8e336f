//! The privileged core of a small x86-64 kernel: the tables through which the
//! processor dispatches exceptions, and the virtual-memory machinery that
//! hands out physical frames and maps pages to them.

pub mod addr;
pub mod memory_map;
pub mod memory;
pub mod page_table;
pub mod mapping;
pub mod mapping_proofs;
pub mod mapper;
pub mod gdt;
pub mod interrupts;
