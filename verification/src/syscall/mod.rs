//! The system calls that a task makes about itself.

pub mod buffer;
pub mod error;
pub mod mapping;
pub mod process;
