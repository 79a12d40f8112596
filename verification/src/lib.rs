//! The core of a small teaching kernel for RISC-V: threads and their
//! scheduling, blocking synchronisation, user processes and system calls.
//!
//! Everything here is a function of plain values. What only the machine can do
//! (switching stacks, touching device registers, reading a disk) is handed back
//! to the caller as a value that says what to do next.

pub mod error;
pub mod keys;
pub mod mem;
pub mod sync;
pub mod text;
pub mod thread;
pub mod trap;
pub mod userproc;
