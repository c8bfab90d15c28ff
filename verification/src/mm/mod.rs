//! Virtual addresses, access permissions and the per-task address space.

pub mod address;
pub mod memory_set;
pub mod permission;
