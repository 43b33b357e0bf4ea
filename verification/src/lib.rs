//! Physical frame allocation and four-level page tables for a kernel's
//! early boot.

pub mod boot;
pub mod memory;
pub mod vga_buffer;
