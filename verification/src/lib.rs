//! Scheduling and address-space core of a small teaching kernel.
//!
//! The kernel runs on one processor. At any time one task is running and the
//! others that could run wait in a ready queue. This library holds the two
//! decisions at the heart of such a kernel, each with a proof that it does
//! what its contract says:
//!
//! - which task runs next ([`task`]): a ready queue with two policies,
//!   arrival order and stride scheduling, in which each task runs in
//!   proportion to its priority;
//! - how a task's address space grows and shrinks ([`mm`], [`syscall`]):
//!   the system calls that map and unmap memory, move the end of the heap,
//!   and tell a task the time and its own accounting.
//!
//! Nothing here touches the machine. The caller reads the clock, finds the
//! kernel memory behind a buffer of the task, and switches the processor from
//! one task to the next; the library decides and keeps the books.

pub mod config;
pub mod mm;
pub mod syscall;
pub mod task;
